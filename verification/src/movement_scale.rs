use vstd::prelude::*;
use vstd::string::StringSliceAdditionalSpecFns;

use crate::arith::{clamp_i32, clamp_u64, sat_add_i32, sat_add_u64, sat_sub_i32, sign};
use crate::collision::{
    floor_sqrt, is_floor_sqrt, lemma_floor_sqrt, CollisionAdmissionResult, CollisionBody, CollisionBodyKind, CollisionMovementDecision,
    CollisionResolvedAdmissionResult, CollisionWorld,
};
use crate::simulation::{
    cell_key, cell_key_of, ids_in_cell, lemma_cell_key, moved_position, occupied_set, EntityColumns, EntityId, EntityState, MovementDelta, SpatialCell, SpatialGrid,
    TickLoop, WorldPosition,
};
use crate::sorted::{find_key, lemma_insert_keeps_increasing, lower_bound, strictly_increasing};

verus! {

#[derive(Debug, Clone, Copy, PartialEq, Eq)]
pub enum FlowFieldError {
    InvalidBounds,
    GoalBlocked,
}

#[derive(Debug, Clone, Copy, PartialEq, Eq, PartialOrd, Ord, Structural)]
pub struct FlowFieldBounds {
    pub min_x: i32,
    pub min_y: i32,
    pub max_x: i32,
    pub max_y: i32,
}

/// Whether a point with integer coordinates lies inside the bounds.
pub open spec fn in_bounds(b: FlowFieldBounds, x: int, y: int) -> bool {
    b.min_x <= x <= b.max_x && b.min_y <= y <= b.max_y
}

impl FlowFieldBounds {
    pub fn contains(self, cell: SpatialCell) -> (r: bool)
        ensures
            r == in_bounds(self, cell.x as int, cell.y as int),
    {
        cell.x >= self.min_x && cell.x <= self.max_x && cell.y >= self.min_y && cell.y <= self.max_y
    }
}

/// The cell with the given integer coordinates (meaningful inside the `i32` range).
pub open spec fn cell_at(x: int, y: int) -> SpatialCell {
    SpatialCell { x: x as i32, y: y as i32 }
}

/// A cell that a flow field may route through: inside the bounds and not blocked.
pub open spec fn open_cell(b: FlowFieldBounds, blocked: Seq<u64>, x: int, y: int) -> bool {
    in_bounds(b, x, y) && !blocked.contains(cell_key(cell_at(x, y)) as u64)
}

/// Whether the cell at (x, y) is within `k` steps of the goal, moving between edge-adjacent
/// open cells.
pub open spec fn reach(b: FlowFieldBounds, blocked: Seq<u64>, goal: SpatialCell, k: nat, x: int, y: int) -> bool
    decreases k,
{
    if k == 0 {
        x == goal.x && y == goal.y
    } else {
        let j = (k - 1) as nat;
        reach(b, blocked, goal, j, x, y) || (open_cell(b, blocked, x, y) && (reach(b, blocked, goal, j, x - 1, y)
            || reach(b, blocked, goal, j, x, y - 1) || reach(b, blocked, goal, j, x, y + 1)
            || reach(b, blocked, goal, j, x + 1, y)))
    }
}

/// Reach only grows with the number of steps.
pub proof fn lemma_reach_monotone(b: FlowFieldBounds, blocked: Seq<u64>, goal: SpatialCell, j: nat, k: nat, x: int, y: int)
    requires
        j <= k,
        reach(b, blocked, goal, j, x, y),
    ensures
        reach(b, blocked, goal, k, x, y),
    decreases k - j,
{
    if j < k {
        lemma_reach_monotone(b, blocked, goal, j, (k - 1) as nat, x, y);
    }
}

/// Whether a cell can reach the goal at all.
pub open spec fn reachable(b: FlowFieldBounds, blocked: Seq<u64>, goal: SpatialCell, c: SpatialCell) -> bool {
    exists|k: nat| reach(b, blocked, goal, k, c.x as int, c.y as int)
}

/// `k` is the fewest steps from the cell to the goal.
pub open spec fn is_distance(b: FlowFieldBounds, blocked: Seq<u64>, goal: SpatialCell, c: SpatialCell, k: nat) -> bool {
    reach(b, blocked, goal, k, c.x as int, c.y as int) && (k == 0 || !reach(b, blocked, goal, (k - 1) as nat, c.x as int, c.y as int))
}

/// The number of steps from a reachable cell to the goal.
pub open spec fn distance(b: FlowFieldBounds, blocked: Seq<u64>, goal: SpatialCell, c: SpatialCell) -> nat {
    choose|k: nat| is_distance(b, blocked, goal, c, k)
}

/// The distance of a cell is the first step count at which it is reached.
pub proof fn lemma_distance(b: FlowFieldBounds, blocked: Seq<u64>, goal: SpatialCell, c: SpatialCell, k: nat)
    requires
        is_distance(b, blocked, goal, c, k),
    ensures
        distance(b, blocked, goal, c) == k,
        reachable(b, blocked, goal, c),
{
    let d = distance(b, blocked, goal, c);
    assert(is_distance(b, blocked, goal, c, d));
    if d < k {
        lemma_reach_monotone(b, blocked, goal, d, (k - 1) as nat, c.x as int, c.y as int);
    } else if d > k {
        lemma_reach_monotone(b, blocked, goal, k, (d - 1) as nat, c.x as int, c.y as int);
    }
}

/// The flow-field cost of a cell: its distance to the goal when it can reach it.
pub open spec fn flow_cost(b: FlowFieldBounds, blocked: Seq<u64>, goal: SpatialCell, c: SpatialCell) -> Option<nat> {
    if reachable(b, blocked, goal, c) {
        Some(distance(b, blocked, goal, c))
    } else {
        None
    }
}

/// The keys of the blocked cells of a request: the given cells that lie inside the bounds.
pub open spec fn blocked_keys_match(b: FlowFieldBounds, input: Seq<SpatialCell>, keys: Seq<u64>) -> bool {
    &&& strictly_increasing(keys)
    &&& forall|c: SpatialCell| #[trigger] keys.contains(cell_key(c) as u64)
        <==> (input.contains(c) && in_bounds(b, c.x as int, c.y as int))
}

#[derive(Debug, Clone, Copy, PartialEq, Eq, Structural)]
pub enum FlowFieldStepResult {
    AtGoal,
    NextCell,
    Blocked,
    Unreachable,
}

#[derive(Debug, Clone, Copy, PartialEq, Eq, Structural)]
pub struct FlowFieldStep {
    pub from_cell: SpatialCell,
    pub next_cell: Option<SpatialCell>,
    pub movement_delta: MovementDelta,
    pub cost: Option<u32>,
    pub result: FlowFieldStepResult,
}

/// A flow field over a bounded grid: the distance of every cell that can reach the goal.
#[derive(Debug, Clone, PartialEq, Eq)]
pub struct FlowFieldMap {
    bounds: FlowFieldBounds,
    goal_cell: SpatialCell,
    blocked_keys: Vec<u64>,
    keys: Vec<u64>,
    cells: Vec<SpatialCell>,
    costs: Vec<u64>,
}

/// Only the goal and cells inside the bounds are ever reached.
pub proof fn lemma_reach_domain(b: FlowFieldBounds, blocked: Seq<u64>, goal: SpatialCell, k: nat, x: int, y: int)
    requires
        reach(b, blocked, goal, k, x, y),
    ensures
        (x == goal.x && y == goal.y) || in_bounds(b, x, y),
    decreases k,
{
    if k > 0 && reach(b, blocked, goal, (k - 1) as nat, x, y) {
        lemma_reach_domain(b, blocked, goal, (k - 1) as nat, x, y);
    }
}

/// When one more step reaches nothing new, no number of steps does.
pub proof fn lemma_reach_stable(b: FlowFieldBounds, blocked: Seq<u64>, goal: SpatialCell, l: nat, m: nat, x: int, y: int)
    requires
        forall|x: int, y: int| #[trigger] reach(b, blocked, goal, l + 1, x, y) ==> reach(b, blocked, goal, l, x, y),
        l <= m,
        reach(b, blocked, goal, m, x, y),
    ensures
        reach(b, blocked, goal, l, x, y),
    decreases m,
{
    if m > l {
        let j = (m - 1) as nat;
        if reach(b, blocked, goal, j, x, y) {
            lemma_reach_stable(b, blocked, goal, l, j, x, y);
        } else {
            if reach(b, blocked, goal, j, x - 1, y) {
                lemma_reach_stable(b, blocked, goal, l, j, x - 1, y);
            } else if reach(b, blocked, goal, j, x, y - 1) {
                lemma_reach_stable(b, blocked, goal, l, j, x, y - 1);
            } else if reach(b, blocked, goal, j, x, y + 1) {
                lemma_reach_stable(b, blocked, goal, l, j, x, y + 1);
            } else {
                lemma_reach_stable(b, blocked, goal, l, j, x + 1, y);
            }
            assert(reach(b, blocked, goal, l + 1, x, y));
        }
    }
}

/// Inserts a key into a strictly increasing key vector unless it is already there.
pub(crate) fn insert_key(keys: &mut Vec<u64>, k: u64)
    requires
        strictly_increasing(old(keys)@),
    ensures
        strictly_increasing(final(keys)@),
        forall|x: u64| #[trigger] final(keys)@.contains(x) <==> (old(keys)@.contains(x) || x == k),
        final(keys)@.len() <= old(keys)@.len() + 1,
{
    let i = lower_bound(keys, k);
    if i < keys.len() && keys[i] == k {
        return;
    }
    proof {
        lemma_insert_keeps_increasing(keys@, i as int, k);
    }
    let ghost before = keys@;
    keys.insert(i, k);
    proof {
        assert forall|x: u64| #[trigger] keys@.contains(x) <==> (before.contains(x) || x == k) by {
            if keys@.contains(x) {
                let j = choose|j: int| 0 <= j < keys@.len() && keys@[j] == x;
                if j < i {
                    assert(before[j] == x);
                } else if j > i {
                    assert(before[j - 1] == x);
                }
            }
            if before.contains(x) {
                let j = choose|j: int| 0 <= j < before.len() && before[j] == x;
                if j < i {
                    assert(keys@[j] == x);
                } else {
                    assert(keys@[j + 1] == x);
                }
            }
            if x == k {
                assert(keys@[i as int] == k);
            }
        }
    }
}

/// The keys of the given cells that lie inside the bounds, sorted and without repeats.
fn blocked_keys_for(bounds: FlowFieldBounds, blocked_cells: &Vec<SpatialCell>) -> (r: Vec<u64>)
    ensures
        blocked_keys_match(bounds, blocked_cells@, r@),
{
    let mut keys: Vec<u64> = Vec::new();
    let mut p: usize = 0;
    while p < blocked_cells.len()
        invariant
            p <= blocked_cells@.len(),
            strictly_increasing(keys@),
            forall|c: SpatialCell| #[trigger] keys@.contains(cell_key(c) as u64)
                <==> (blocked_cells@.take(p as int).contains(c) && in_bounds(bounds, c.x as int, c.y as int)),
        decreases blocked_cells@.len() - p,
    {
        let cell = blocked_cells[p];
        let ghost before = keys@;
        if bounds.contains(cell) {
            let k = cell_key_of(cell);
            insert_key(&mut keys, k);
        }
        proof {
            let t = blocked_cells@.take(p + 1);
            assert(t == blocked_cells@.take(p as int).push(cell));
            assert forall|c: SpatialCell| #[trigger] keys@.contains(cell_key(c) as u64)
                <==> (t.contains(c) && in_bounds(bounds, c.x as int, c.y as int)) by {
                lemma_cell_key(c, cell);
                if t.contains(c) && c != cell {
                    let j = choose|j: int| 0 <= j < t.len() && t[j] == c;
                    assert(blocked_cells@.take(p as int)[j] == c);
                }
                if blocked_cells@.take(p as int).contains(c) {
                    let j = choose|j: int| 0 <= j < p && blocked_cells@.take(p as int)[j] == c;
                    assert(t[j] == c);
                }
                if c == cell {
                    assert(t[p as int] == c);
                }
            }
        }
        p += 1;
    }
    assert(blocked_cells@.take(blocked_cells@.len() as int) == blocked_cells@);
    keys
}

/// The sorted entry vectors hold exactly the cells and costs of `model`.
pub open spec fn linked(keys: Seq<u64>, cells: Seq<SpatialCell>, costs: Seq<u64>, model: Map<SpatialCell, nat>) -> bool {
    &&& strictly_increasing(keys)
    &&& keys.len() == cells.len()
    &&& keys.len() == costs.len()
    &&& forall|i: int| 0 <= i < keys.len() ==> #[trigger] keys[i] == cell_key(cells[i]) as u64
        && model.contains_key(cells[i]) && model[cells[i]] == costs[i]
    &&& forall|c: SpatialCell| #[trigger] model.contains_key(c) ==> keys.contains(cell_key(c) as u64)
}

/// Every open neighbour of the cell at (x, y) has an entry.
pub open spec fn settled(b: FlowFieldBounds, blocked: Seq<u64>, model: Map<SpatialCell, nat>, x: int, y: int) -> bool {
    &&& open_cell(b, blocked, x - 1, y) ==> model.contains_key(cell_at(x - 1, y))
    &&& open_cell(b, blocked, x, y - 1) ==> model.contains_key(cell_at(x, y - 1))
    &&& open_cell(b, blocked, x, y + 1) ==> model.contains_key(cell_at(x, y + 1))
    &&& open_cell(b, blocked, x + 1, y) ==> model.contains_key(cell_at(x + 1, y))
}

/// Gives the cell at (nx, ny) the cost `cost` and queues it when it is open and has no entry.
fn visit(
    bounds: FlowFieldBounds,
    blocked: &Vec<u64>,
    keys: &mut Vec<u64>,
    cells: &mut Vec<SpatialCell>,
    costs: &mut Vec<u64>,
    next: &mut Vec<SpatialCell>,
    nx: i64,
    ny: i64,
    cost: u64,
    Ghost(model): Ghost<Map<SpatialCell, nat>>,
) -> (r: Ghost<Map<SpatialCell, nat>>)
    requires
        linked(old(keys)@, old(cells)@, old(costs)@, model),
        strictly_increasing(blocked@),
    ensures
        linked(final(keys)@, final(cells)@, final(costs)@, r@),
        final(keys)@.len() == old(keys)@.len() + (final(next)@.len() - old(next)@.len()),
        final(next)@.len() >= old(next)@.len(),
        open_cell(bounds, blocked@, nx as int, ny as int) ==> r@.contains_key(cell_at(nx as int, ny as int)),
        ({
            let n = cell_at(nx as int, ny as int);
            if open_cell(bounds, blocked@, nx as int, ny as int) && !model.contains_key(n) {
                &&& r@ == model.insert(n, cost as nat)
                &&& final(next)@ == old(next)@.push(n)
                &&& nx == n.x && ny == n.y
            } else {
                &&& r@ == model
                &&& final(next)@ == old(next)@
            }
        }),
{
    if nx < bounds.min_x as i64 || nx > bounds.max_x as i64 || ny < bounds.min_y as i64 || ny > bounds.max_y as i64 {
        return Ghost(model);
    }
    let cell = SpatialCell { x: nx as i32, y: ny as i32 };
    let k = cell_key_of(cell);
    match find_key(blocked, k) {
        Some(_) => {
            return Ghost(model);
        },
        None => {},
    }
    let i = lower_bound(keys, k);
    if i < keys.len() && keys[i] == k {
        proof {
            lemma_cell_key(cells@[i as int], cell);
        }
        return Ghost(model);
    }
    proof {
        if model.contains_key(cell) {
            assert(keys@.contains(cell_key(cell) as u64));
        }
        lemma_insert_keeps_increasing(keys@, i as int, k);
    }
    let ghost old_keys = keys@;
    let ghost old_cells = cells@;
    let ghost old_costs = costs@;
    keys.insert(i, k);
    cells.insert(i, cell);
    costs.insert(i, cost);
    next.push(cell);
    let ghost m2 = model.insert(cell, cost as nat);
    proof {
        assert forall|j: int| 0 <= j < keys@.len() implies #[trigger] keys@[j] == cell_key(cells@[j]) as u64
            && m2.contains_key(cells@[j]) && m2[cells@[j]] == costs@[j] by {
            if j < i {
                assert(keys@[j] == old_keys[j] && cells@[j] == old_cells[j] && costs@[j] == old_costs[j]);
                lemma_cell_key(cells@[j], cell);
            } else if j > i {
                assert(keys@[j] == old_keys[j - 1] && cells@[j] == old_cells[j - 1] && costs@[j] == old_costs[j - 1]);
                lemma_cell_key(cells@[j], cell);
            }
        }
        assert forall|c: SpatialCell| #[trigger] m2.contains_key(c) implies keys@.contains(cell_key(c) as u64) by {
            if c == cell {
                assert(keys@[i as int] == k);
            } else {
                assert(model.contains_key(c));
                assert(old_keys.contains(cell_key(c) as u64));
                let j = choose|j: int| 0 <= j < old_keys.len() && old_keys[j] == cell_key(c) as u64;
                if j < i {
                    assert(keys@[j] == old_keys[j]);
                } else {
                    assert(keys@[j + 1] == old_keys[j]);
                }
            }
        }
    }
    Ghost(m2)
}

/// The entries of a flow field hold the distance of each stored cell, every reachable cell is
/// stored, and the blocked keys are sorted.
pub open spec fn map_parts_ok(
    bounds: FlowFieldBounds,
    goal: SpatialCell,
    blocked: Seq<u64>,
    keys: Seq<u64>,
    cells: Seq<SpatialCell>,
    costs: Seq<u64>,
) -> bool {
    &&& strictly_increasing(keys)
    &&& strictly_increasing(blocked)
    &&& keys.len() == cells.len()
    &&& keys.len() == costs.len()
    &&& forall|i: int| 0 <= i < keys.len() ==> #[trigger] keys[i] == cell_key(cells[i]) as u64
        && is_distance(bounds, blocked, goal, cells[i], costs[i] as nat)
    &&& forall|c: SpatialCell| #[trigger] reachable(bounds, blocked, goal, c) ==> keys.contains(cell_key(c) as u64)
}

impl FlowFieldMap {
    /// The entries hold the distance of each stored cell, every reachable cell is stored, and
    /// the blocked keys are sorted.
    pub closed spec fn wf(&self) -> bool {
        map_parts_ok(self.bounds, self.goal_cell, self.blocked_keys@, self.keys@, self.cells@, self.costs@)
    }

    pub closed spec fn spec_bounds(&self) -> FlowFieldBounds {
        self.bounds
    }

    pub closed spec fn spec_goal(&self) -> SpatialCell {
        self.goal_cell
    }

    /// The keys of the blocked cells inside the bounds, sorted.
    pub closed spec fn spec_blocked(&self) -> Seq<u64> {
        self.blocked_keys@
    }

    /// The stored cells: exactly the cells that can reach the goal, one each.
    pub closed spec fn spec_cells(&self) -> Seq<SpatialCell> {
        self.cells@
    }

    /// The flow-field cost of a cell under this map's bounds, blockers and goal.
    pub open spec fn spec_cost(&self, c: SpatialCell) -> Option<nat> {
        flow_cost(self.spec_bounds(), self.spec_blocked(), self.spec_goal(), c)
    }

    pub proof fn lemma_cells(&self)
        requires
            self.wf(),
        ensures
            forall|i: int| 0 <= i < self.spec_cells().len() ==> #[trigger] reachable(self.spec_bounds(), self.spec_blocked(),
                self.spec_goal(), self.spec_cells()[i]),
            forall|i: int, j: int| 0 <= i < j < self.spec_cells().len() ==> self.spec_cells()[i] != self.spec_cells()[j],
            forall|c: SpatialCell| #[trigger] reachable(self.spec_bounds(), self.spec_blocked(), self.spec_goal(), c)
                ==> self.spec_cells().contains(c),
            strictly_increasing(self.spec_blocked()),
    {
        assert forall|i: int| 0 <= i < self.spec_cells().len() implies #[trigger] reachable(self.spec_bounds(), self.spec_blocked(),
            self.spec_goal(), self.spec_cells()[i]) by {
            assert(self.keys@[i] == cell_key(self.cells@[i]) as u64);
            lemma_distance(self.bounds, self.blocked_keys@, self.goal_cell, self.cells@[i], self.costs@[i] as nat);
        }
        assert forall|i: int, j: int| 0 <= i < j < self.spec_cells().len() implies self.spec_cells()[i] != self.spec_cells()[j] by {
            assert(self.keys@[i] < self.keys@[j]);
        }
        assert forall|c: SpatialCell| #[trigger] reachable(self.spec_bounds(), self.spec_blocked(), self.spec_goal(), c)
            implies self.spec_cells().contains(c) by {
            assert(self.keys@.contains(cell_key(c) as u64));
            let i = choose|i: int| 0 <= i < self.keys@.len() && self.keys@[i] == cell_key(c) as u64;
            lemma_cell_key(self.cells@[i], c);
            assert(self.spec_cells()[i] == c);
        }
    }

    /// Builds the flow field towards `goal_cell`: every cell that can reach the goal through
    /// edge-adjacent open cells inside the bounds gets its step distance.
    #[verifier::spinoff_prover]
    #[verifier::rlimit(60)]
    pub fn build(bounds: FlowFieldBounds, goal_cell: SpatialCell, blocked_cells: Vec<SpatialCell>) -> (r: Result<Self, FlowFieldError>)
        ensures
            (bounds.min_x > bounds.max_x || bounds.min_y > bounds.max_y) <==> r == Err::<Self, FlowFieldError>(FlowFieldError::InvalidBounds),
            !(bounds.min_x > bounds.max_x || bounds.min_y > bounds.max_y) ==> (r == Err::<Self, FlowFieldError>(FlowFieldError::GoalBlocked)
                <==> (blocked_cells@.contains(goal_cell) && in_bounds(bounds, goal_cell.x as int, goal_cell.y as int))),
            r is Ok ==> r->Ok_0.wf() && r->Ok_0.spec_bounds() == bounds && r->Ok_0.spec_goal() == goal_cell
                && blocked_keys_match(bounds, blocked_cells@, r->Ok_0.spec_blocked()),
    {
        if bounds.min_x > bounds.max_x || bounds.min_y > bounds.max_y {
            return Err(FlowFieldError::InvalidBounds);
        }
        let blocked = blocked_keys_for(bounds, &blocked_cells);
        let goal_key = cell_key_of(goal_cell);
        match find_key(&blocked, goal_key) {
            Some(_) => {
                proof {
                    assert(blocked@.contains(cell_key(goal_cell) as u64));
                }
                return Err(FlowFieldError::GoalBlocked);
            },
            None => {
                proof {
                    assert(!blocked@.contains(cell_key(goal_cell) as u64));
                }
            },
        }
        let ghost b = bounds;
        let ghost bl = blocked@;
        let mut keys: Vec<u64> = Vec::new();
        keys.push(goal_key);
        let mut cells: Vec<SpatialCell> = Vec::new();
        cells.push(goal_cell);
        let mut costs: Vec<u64> = Vec::new();
        costs.push(0);
        let ghost mut model: Map<SpatialCell, nat> = Map::empty().insert(goal_cell, 0);
        let mut frontier: Vec<SpatialCell> = Vec::new();
        frontier.push(goal_cell);
        let mut layer: u64 = 0;
        proof {
            assert(keys@[0] == goal_key);
            assert(frontier@[0] == goal_cell);
            assert(is_distance(b, bl, goal_cell, goal_cell, 0));
            assert forall|c: SpatialCell| #[trigger] reach(b, bl, goal_cell, 0, c.x as int, c.y as int) implies model.contains_key(c) by {
                assert(c == goal_cell);
            }
            assert forall|c: SpatialCell| #[trigger] frontier@.contains(c) <==> (model.contains_key(c) && model[c] == 0) by {
                if frontier@.contains(c) {
                    let j = choose|j: int| 0 <= j < frontier@.len() && frontier@[j] == c;
                    assert(j == 0);
                }
            }
        }
        loop
            invariant_except_break
                layer < keys@.len(),
                frontier@.len() > 0,
                forall|c: SpatialCell| #[trigger] model.contains_key(c) ==> model[c] <= layer,
                forall|c: SpatialCell| #[trigger] reach(b, bl, goal_cell, layer as nat, c.x as int, c.y as int) ==> model.contains_key(c),
                forall|c: SpatialCell| #[trigger] frontier@.contains(c) <==> (model.contains_key(c) && model[c] == layer),
            invariant
                b == bounds,
                bl == blocked@,
                strictly_increasing(bl),
                linked(keys@, cells@, costs@, model),
                forall|c: SpatialCell| #[trigger] model.contains_key(c) ==> is_distance(b, bl, goal_cell, c, model[c]),
            ensures
                strictly_increasing(bl),
                linked(keys@, cells@, costs@, model),
                forall|c: SpatialCell| #[trigger] model.contains_key(c) ==> is_distance(b, bl, goal_cell, c, model[c]),
                forall|c: SpatialCell| #[trigger] reachable(b, bl, goal_cell, c) ==> model.contains_key(c),
            decreases usize::MAX - keys@.len(),
        {
            let mut next: Vec<SpatialCell> = Vec::new();
            let key_count = keys.len();
            let next_cost: u64 = layer + 1;
            let ghost start = keys@.len();
            let mut p: usize = 0;
            while p < frontier.len()
                invariant
                    b == bounds,
                    bl == blocked@,
                    strictly_increasing(bl),
                    linked(keys@, cells@, costs@, model),
                    layer < start,
                    keys@.len() == start + next@.len(),
                    p <= frontier@.len(),
                    next_cost == layer + 1,
                    forall|c: SpatialCell| #[trigger] model.contains_key(c) ==> is_distance(b, bl, goal_cell, c, model[c]) && model[c] <= layer + 1,
                    forall|c: SpatialCell| #[trigger] reach(b, bl, goal_cell, layer as nat, c.x as int, c.y as int) ==> model.contains_key(c),
                    forall|c: SpatialCell| #[trigger] frontier@.contains(c) <==> (model.contains_key(c) && model[c] == layer),
                    forall|c: SpatialCell| #[trigger] next@.contains(c) <==> (model.contains_key(c) && model[c] == layer + 1),
                    forall|q: int| 0 <= q < p ==> settled(b, bl, model, (#[trigger] frontier@[q]).x as int, frontier@[q].y as int),
                decreases frontier@.len() - p,
            {
                let f = frontier[p];
                proof {
                    assert(frontier@.contains(f));
                    assert(reach(b, bl, goal_cell, layer as nat, f.x as int, f.y as int));
                }
                let x = f.x as i64;
                let y = f.y as i64;
                let ghost m0 = model;
                let ghost n0 = next@;
                let Ghost(m1) = visit(bounds, &blocked, &mut keys, &mut cells, &mut costs, &mut next, x - 1, y, next_cost, Ghost(model));
                proof {
                    self::lemma_visit_step(b, bl, goal_cell, layer as nat, f, m0, m1, n0, next@, x - 1, y as int, frontier@);
                    model = m1;
                }
                let ghost n1 = next@;
                let Ghost(m2) = visit(bounds, &blocked, &mut keys, &mut cells, &mut costs, &mut next, x, y - 1, next_cost, Ghost(model));
                proof {
                    self::lemma_visit_step(b, bl, goal_cell, layer as nat, f, m1, m2, n1, next@, x as int, y - 1, frontier@);
                    model = m2;
                }
                let ghost n2 = next@;
                let Ghost(m3) = visit(bounds, &blocked, &mut keys, &mut cells, &mut costs, &mut next, x, y + 1, next_cost, Ghost(model));
                proof {
                    self::lemma_visit_step(b, bl, goal_cell, layer as nat, f, m2, m3, n2, next@, x as int, y + 1, frontier@);
                    model = m3;
                }
                let ghost n3 = next@;
                let Ghost(m4) = visit(bounds, &blocked, &mut keys, &mut cells, &mut costs, &mut next, x + 1, y, next_cost, Ghost(model));
                proof {
                    self::lemma_visit_step(b, bl, goal_cell, layer as nat, f, m3, m4, n3, next@, x + 1, y as int, frontier@);
                    model = m4;
                    assert forall|q: int| 0 <= q < p + 1 implies settled(b, bl, model, (#[trigger] frontier@[q]).x as int, frontier@[q].y as int) by {
                        if q < p {
                            assert(settled(b, bl, m0, frontier@[q].x as int, frontier@[q].y as int));
                        }
                    }
                }
                p += 1;
            }
            if next.len() == 0 {
                proof {
                    assert forall|c: SpatialCell| !(model.contains_key(c) && #[trigger] model[c] == layer + 1) by {
                        assert(!next@.contains(c));
                    }
                    self::lemma_layer_closed(b, bl, goal_cell, layer as nat, model, frontier@);
                    assert forall|c: SpatialCell| #[trigger] reachable(b, bl, goal_cell, c) implies model.contains_key(c) by {
                        let k = choose|k: nat| reach(b, bl, goal_cell, k, c.x as int, c.y as int);
                        if k <= layer {
                            lemma_reach_monotone(b, bl, goal_cell, k, layer as nat, c.x as int, c.y as int);
                        } else {
                            lemma_reach_stable(b, bl, goal_cell, layer as nat, k, c.x as int, c.y as int);
                        }
                    }
                }
                break;
            }
            proof {
                assert forall|c: SpatialCell| #[trigger] reach(b, bl, goal_cell, (layer + 1) as nat, c.x as int, c.y as int) implies model.contains_key(c) by {
                    self::lemma_next_layer_covered(b, bl, goal_cell, layer as nat, model, frontier@, c);
                }
            }
            let grown = keys.len();
            assert(grown > key_count);
            frontier = next;
            layer = layer + 1;
        }
        proof {
            assert forall|i: int| 0 <= i < keys@.len() implies #[trigger] keys@[i] == cell_key(cells@[i]) as u64
                && is_distance(b, bl, goal_cell, cells@[i], costs@[i] as nat) by {
                assert(keys@[i] == cell_key(cells@[i]) as u64);
                assert(model.contains_key(cells@[i]));
            }
            assert forall|c: SpatialCell| #[trigger] reachable(b, bl, goal_cell, c) implies keys@.contains(cell_key(c) as u64) by {
                assert(model.contains_key(c));
            }
        }
        Ok(FlowFieldMap { bounds, goal_cell, blocked_keys: blocked, keys, cells, costs })
    }
}

/// One neighbour visit keeps the layer invariants of the flow-field build.
proof fn lemma_visit_step(
    b: FlowFieldBounds,
    bl: Seq<u64>,
    goal: SpatialCell,
    layer: nat,
    f: SpatialCell,
    m0: Map<SpatialCell, nat>,
    m1: Map<SpatialCell, nat>,
    n0: Seq<SpatialCell>,
    n1: Seq<SpatialCell>,
    nx: int,
    ny: int,
    frontier: Seq<SpatialCell>,
)
    requires
        reach(b, bl, goal, layer, f.x as int, f.y as int),
        (nx == f.x - 1 && ny == f.y as int) || (nx == f.x as int && ny == f.y - 1) || (nx == f.x as int && ny == f.y + 1)
            || (nx == f.x + 1 && ny == f.y as int),
        forall|c: SpatialCell| #[trigger] m0.contains_key(c) ==> is_distance(b, bl, goal, c, m0[c]) && m0[c] <= layer + 1,
        forall|c: SpatialCell| #[trigger] reach(b, bl, goal, layer, c.x as int, c.y as int) ==> m0.contains_key(c),
        forall|c: SpatialCell| #[trigger] frontier.contains(c) <==> (m0.contains_key(c) && m0[c] == layer),
        forall|c: SpatialCell| #[trigger] n0.contains(c) <==> (m0.contains_key(c) && m0[c] == layer + 1),
        ({
            let n = cell_at(nx, ny);
            if open_cell(b, bl, nx, ny) && !m0.contains_key(n) {
                &&& m1 == m0.insert(n, (layer + 1) as nat)
                &&& n1 == n0.push(n)
                &&& nx == n.x && ny == n.y
            } else {
                &&& m1 == m0
                &&& n1 == n0
            }
        }),
    ensures
        forall|c: SpatialCell| #[trigger] m1.contains_key(c) ==> is_distance(b, bl, goal, c, m1[c]) && m1[c] <= layer + 1,
        forall|c: SpatialCell| #[trigger] reach(b, bl, goal, layer, c.x as int, c.y as int) ==> m1.contains_key(c),
        forall|c: SpatialCell| #[trigger] frontier.contains(c) <==> (m1.contains_key(c) && m1[c] == layer),
        forall|c: SpatialCell| #[trigger] n1.contains(c) <==> (m1.contains_key(c) && m1[c] == layer + 1),
        forall|c: SpatialCell| #[trigger] m0.contains_key(c) ==> m1.contains_key(c) && m1[c] == m0[c],
        open_cell(b, bl, nx, ny) ==> m1.contains_key(cell_at(nx, ny)),
{
    let n = cell_at(nx, ny);
    if open_cell(b, bl, nx, ny) && !m0.contains_key(n) {
        assert(reach(b, bl, goal, layer + 1, n.x as int, n.y as int));
        if reach(b, bl, goal, layer, n.x as int, n.y as int) {
            assert(m0.contains_key(n));
        }
        assert(is_distance(b, bl, goal, n, layer + 1));
        assert forall|c: SpatialCell| #[trigger] n1.contains(c) <==> (m1.contains_key(c) && m1[c] == layer + 1) by {
            if n1.contains(c) && c != n {
                let j = choose|j: int| 0 <= j < n1.len() && n1[j] == c;
                assert(n0[j] == c);
            }
            if n0.contains(c) {
                let j = choose|j: int| 0 <= j < n0.len() && n0[j] == c;
                assert(n1[j] == c);
            }
            if c == n {
                assert(n1[n0.len() as int] == c);
            }
        }
    }
}

/// When a layer adds no cell, one more step reaches nothing new.
proof fn lemma_layer_closed(
    b: FlowFieldBounds,
    bl: Seq<u64>,
    goal: SpatialCell,
    layer: nat,
    model: Map<SpatialCell, nat>,
    frontier: Seq<SpatialCell>,
)
    requires
        forall|c: SpatialCell| #[trigger] model.contains_key(c) ==> is_distance(b, bl, goal, c, model[c]) && model[c] <= layer + 1,
        forall|c: SpatialCell| #[trigger] reach(b, bl, goal, layer, c.x as int, c.y as int) ==> model.contains_key(c),
        forall|c: SpatialCell| #[trigger] frontier.contains(c) <==> (model.contains_key(c) && model[c] == layer),
        forall|c: SpatialCell| !(model.contains_key(c) && #[trigger] model[c] == layer + 1),
        forall|q: int| 0 <= q < frontier.len() ==> settled(b, bl, model, (#[trigger] frontier[q]).x as int, frontier[q].y as int),
    ensures
        forall|x: int, y: int| #[trigger] reach(b, bl, goal, layer + 1, x, y) ==> reach(b, bl, goal, layer, x, y),
{
    assert forall|x: int, y: int| #[trigger] reach(b, bl, goal, layer + 1, x, y) implies reach(b, bl, goal, layer, x, y) by {
        if !reach(b, bl, goal, layer, x, y) {
            let (px, py) = if reach(b, bl, goal, layer, x - 1, y) {
                (x - 1, y)
            } else if reach(b, bl, goal, layer, x, y - 1) {
                (x, y - 1)
            } else if reach(b, bl, goal, layer, x, y + 1) {
                (x, y + 1)
            } else {
                (x + 1, y)
            };
            assert(reach(b, bl, goal, layer, px, py));
            lemma_reach_domain(b, bl, goal, layer, px, py);
            let nb = cell_at(px, py);
            assert(nb.x == px && nb.y == py);
            assert(model.contains_key(nb));
            let d = model[nb];
            if d < layer {
                assert(reach(b, bl, goal, d + 1, x, y));
                lemma_reach_monotone(b, bl, goal, d + 1, layer, x, y);
            } else {
                if d > layer {
                    assert(!reach(b, bl, goal, (d - 1) as nat, px, py));
                    lemma_reach_monotone(b, bl, goal, layer, (d - 1) as nat, px, py);
                }
                assert(frontier.contains(nb));
                let q = choose|q: int| 0 <= q < frontier.len() && frontier[q] == nb;
                assert(settled(b, bl, model, frontier[q].x as int, frontier[q].y as int));
                let c = cell_at(x, y);
                assert(c.x == x && c.y == y);
                assert(model.contains_key(c));
                let e = model[c];
                assert(e != layer + 1);
                assert(reach(b, bl, goal, e, x, y));
                lemma_reach_monotone(b, bl, goal, e, layer, x, y);
            }
        }
    }
}

/// After a layer is expanded, every cell one step further is stored.
proof fn lemma_next_layer_covered(
    b: FlowFieldBounds,
    bl: Seq<u64>,
    goal: SpatialCell,
    layer: nat,
    model: Map<SpatialCell, nat>,
    frontier: Seq<SpatialCell>,
    c: SpatialCell,
)
    requires
        forall|c: SpatialCell| #[trigger] model.contains_key(c) ==> is_distance(b, bl, goal, c, model[c]) && model[c] <= layer + 1,
        forall|c: SpatialCell| #[trigger] reach(b, bl, goal, layer, c.x as int, c.y as int) ==> model.contains_key(c),
        forall|c: SpatialCell| #[trigger] frontier.contains(c) <==> (model.contains_key(c) && model[c] == layer),
        forall|q: int| 0 <= q < frontier.len() ==> settled(b, bl, model, (#[trigger] frontier[q]).x as int, frontier[q].y as int),
        reach(b, bl, goal, layer + 1, c.x as int, c.y as int),
    ensures
        model.contains_key(c),
{
    let x = c.x as int;
    let y = c.y as int;
    if !reach(b, bl, goal, layer, x, y) {
        let (px, py) = if reach(b, bl, goal, layer, x - 1, y) {
            (x - 1, y)
        } else if reach(b, bl, goal, layer, x, y - 1) {
            (x, y - 1)
        } else if reach(b, bl, goal, layer, x, y + 1) {
            (x, y + 1)
        } else {
            (x + 1, y)
        };
        assert(reach(b, bl, goal, layer, px, py));
        lemma_reach_domain(b, bl, goal, layer, px, py);
        let nb = cell_at(px, py);
        assert(nb.x == px && nb.y == py);
        assert(reach(b, bl, goal, layer, nb.x as int, nb.y as int));
        assert(model.contains_key(nb));
        let d = model[nb];
        if d < layer {
            assert(reach(b, bl, goal, d + 1, x, y));
            lemma_reach_monotone(b, bl, goal, d + 1, layer, x, y);
        } else {
            if d > layer {
                lemma_reach_monotone(b, bl, goal, layer, (d - 1) as nat, px, py);
            }
            assert(frontier.contains(nb));
            let q = choose|q: int| 0 <= q < frontier.len() && frontier[q] == nb;
            assert(settled(b, bl, model, frontier[q].x as int, frontier[q].y as int));
            assert(cell_at(x, y) == c);
        }
    }
}

/// (cost, x, y) of `a` comes before that of `b`.
pub open spec fn step_key_less(ca: nat, a: SpatialCell, cb: nat, b: SpatialCell) -> bool {
    ca < cb || (ca == cb && (a.x < b.x || (a.x == b.x && a.y < b.y)))
}

/// Keeps the better of `best` and the cell at (x, y) as the next step from a cell of cost
/// `base`: the candidate must be cheaper than `base`, and the cheapest wins, ties broken by x
/// then y.
pub open spec fn consider_step(m: FlowFieldMap, base: nat, best: Option<SpatialCell>, x: int, y: int) -> Option<SpatialCell> {
    if i32::MIN <= x <= i32::MAX && i32::MIN <= y <= i32::MAX {
        let n = cell_at(x, y);
        match m.spec_cost(n) {
            Some(cn) => if cn < base && (match best {
                None => true,
                Some(bc) => step_key_less(cn, n, m.spec_cost(bc).unwrap(), bc),
            }) {
                Some(n)
            } else {
                best
            },
            None => best,
        }
    } else {
        best
    }
}

/// The next cell towards the goal from `cell`, among its four edge neighbours.
pub open spec fn best_step(m: FlowFieldMap, cell: SpatialCell, base: nat) -> Option<SpatialCell> {
    let x = cell.x as int;
    let y = cell.y as int;
    consider_step(m, base, consider_step(m, base, consider_step(m, base, consider_step(m, base, None, x - 1, y), x, y - 1), x, y + 1), x + 1, y)
}

/// The step size along one axis: a quarter metre, or the cell size when that is smaller.
pub open spec fn step_len(cell_size_mm: i32) -> int {
    if cell_size_mm < 250 { cell_size_mm as int } else { 250 }
}

/// A flow-field step starts at its cell; it is blocked exactly on a blocked cell, reports the
/// goal only at the goal, moves only when it names a next cell, and then the next cell is one
/// of the four edge neighbours, strictly cheaper, and the move is one step length along one
/// axis.
pub proof fn lemma_flow_step_moves_to_cheaper_neighbour(m: FlowFieldMap, cell: SpatialCell, cell_size_mm: i32)
    requires
        cell_size_mm > 0,
    ensures
        ({
            let st = flow_step(m, cell, cell_size_mm);
            &&& st.from_cell == cell
            &&& (st.result is Blocked <==> m.spec_blocked().contains(cell_key(cell) as u64))
            &&& (st.result is AtGoal ==> cell == m.spec_goal())
            &&& (!(st.result is NextCell) ==> st.movement_delta == (MovementDelta { dx_mm: 0, dy_mm: 0 }))
            &&& (st.result is NextCell ==> st.next_cell is Some && {
                let n = st.next_cell->Some_0;
                let dx = n.x - cell.x;
                let dy = n.y - cell.y;
                &&& (dx == 0 && (dy == 1 || dy == -1)) || (dy == 0 && (dx == 1 || dx == -1))
                &&& m.spec_cost(cell) is Some && m.spec_cost(n) is Some && m.spec_cost(n)->Some_0 < m.spec_cost(cell)->Some_0
                &&& abs_int(st.movement_delta.dx_mm as int) + abs_int(st.movement_delta.dy_mm as int) == step_len(cell_size_mm)
            })
        }),
{
    let st = flow_step(m, cell, cell_size_mm);
    if !m.spec_blocked().contains(cell_key(cell) as u64) && m.spec_cost(cell) is Some && cell != m.spec_goal() {
        let c = m.spec_cost(cell)->Some_0;
        let x = cell.x as int;
        let y = cell.y as int;
        let b1 = consider_step(m, c, None, x - 1, y);
        let b2 = consider_step(m, c, b1, x, y - 1);
        let b3 = consider_step(m, c, b2, x, y + 1);
        let b4 = consider_step(m, c, b3, x + 1, y);
        assert(b1 is Some ==> b1->Some_0 == cell_at(x - 1, y) && m.spec_cost(cell_at(x - 1, y)) is Some && m.spec_cost(cell_at(x - 1, y))->Some_0 < c);
        assert(b2 is Some ==> (b2 == b1 || (b2->Some_0 == cell_at(x, y - 1) && m.spec_cost(cell_at(x, y - 1)) is Some && m.spec_cost(cell_at(x, y - 1))->Some_0 < c)));
        assert(b3 is Some ==> (b3 == b2 || (b3->Some_0 == cell_at(x, y + 1) && m.spec_cost(cell_at(x, y + 1)) is Some && m.spec_cost(cell_at(x, y + 1))->Some_0 < c)));
        assert(b4 is Some ==> (b4 == b3 || (b4->Some_0 == cell_at(x + 1, y) && m.spec_cost(cell_at(x + 1, y)) is Some && m.spec_cost(cell_at(x + 1, y))->Some_0 < c)));
        assert(step_len(cell_size_mm) <= 250);
    }
}

/// The absolute value of an integer.
pub open spec fn abs_int(x: int) -> int {
    if x < 0 {
        -x
    } else {
        x
    }
}

/// The flow-field step from `cell`.
pub open spec fn flow_step(m: FlowFieldMap, cell: SpatialCell, cell_size_mm: i32) -> FlowFieldStep {
    let still = MovementDelta { dx_mm: 0, dy_mm: 0 };
    if m.spec_blocked().contains(cell_key(cell) as u64) {
        FlowFieldStep { from_cell: cell, next_cell: None, movement_delta: still, cost: None, result: FlowFieldStepResult::Blocked }
    } else {
        match m.spec_cost(cell) {
            None => FlowFieldStep { from_cell: cell, next_cell: None, movement_delta: still, cost: None, result: FlowFieldStepResult::Unreachable },
            Some(c) => if cell == m.spec_goal() {
                FlowFieldStep { from_cell: cell, next_cell: None, movement_delta: still, cost: Some(c as u32), result: FlowFieldStepResult::AtGoal }
            } else {
                match best_step(m, cell, c) {
                    None => FlowFieldStep {
                        from_cell: cell,
                        next_cell: None,
                        movement_delta: still,
                        cost: Some(c as u32),
                        result: FlowFieldStepResult::Unreachable,
                    },
                    Some(n) => FlowFieldStep {
                        from_cell: cell,
                        next_cell: Some(n),
                        movement_delta: MovementDelta {
                            dx_mm: clamp_i32(sign(n.x - cell.x) * step_len(cell_size_mm)) as i32,
                            dy_mm: clamp_i32(sign(n.y - cell.y) * step_len(cell_size_mm)) as i32,
                        },
                        cost: Some(c as u32),
                        result: FlowFieldStepResult::NextCell,
                    },
                }
            },
        }
    }
}

/// `sign * len`, saturating in `i32`, for a sign of -1, 0 or 1.
fn signed_len(sgn: i32, len: i32) -> (r: i32)
    requires
        -1 <= sgn <= 1,
    ensures
        r == clamp_i32(sgn * len),
{
    if sgn > 0 {
        assert(sgn == 1);
        len
    } else if sgn < 0 {
        assert(sgn == -1);
        if len == i32::MIN {
            i32::MAX
        } else {
            -len
        }
    } else {
        0
    }
}

impl FlowFieldMap {
    pub fn goal_cell(&self) -> (r: SpatialCell)
        ensures
            r == self.spec_goal(),
    {
        self.goal_cell
    }

    /// The number of cells that can reach the goal.
    pub fn visited_cell_count(&self) -> (r: usize)
        ensures
            r == self.spec_cells().len(),
    {
        self.cells.len()
    }

    /// The number of distinct blocked cells inside the bounds.
    pub fn blocked_cell_count(&self) -> (r: usize)
        ensures
            r == self.spec_blocked().len(),
    {
        self.blocked_keys.len()
    }

    /// The stored distance of a cell.
    fn cost_u64(&self, cell: SpatialCell) -> (r: Option<u64>)
        requires
            self.wf(),
        ensures
            r == (match self.spec_cost(cell) {
                Some(d) => Some(d as u64),
                None => None::<u64>,
            }),
            self.spec_cost(cell) is Some ==> self.spec_cost(cell).unwrap() <= u64::MAX,
    {
        let k = cell_key_of(cell);
        match find_key(&self.keys, k) {
            Some(i) => {
                proof {
                    assert(self.keys@[i as int] == cell_key(self.cells@[i as int]) as u64);
                    lemma_cell_key(self.cells@[i as int], cell);
                    lemma_distance(self.bounds, self.blocked_keys@, self.goal_cell, cell, self.costs@[i as int] as nat);
                }
                Some(self.costs[i])
            },
            None => {
                proof {
                    if reachable(self.bounds, self.blocked_keys@, self.goal_cell, cell) {
                        assert(self.keys@.contains(cell_key(cell) as u64));
                    }
                }
                None
            },
        }
    }

    /// The step distance from a cell to the goal, when the cell can reach it.
    pub fn cost_at(&self, cell: SpatialCell) -> (r: Option<u32>)
        requires
            self.wf(),
        ensures
            r == (match self.spec_cost(cell) {
                Some(d) => Some(d as u32),
                None => None::<u32>,
            }),
    {
        match self.cost_u64(cell) {
            Some(c) => Some(c as u32),
            None => None,
        }
    }

    /// Keeps the better next-step candidate (see `consider_step`).
    fn consider_neighbor(&self, base: u64, best: Option<(SpatialCell, u64)>, x: i64, y: i64) -> (r: Option<(SpatialCell, u64)>)
        requires
            self.wf(),
            match best {
                Some((bc, bcost)) => self.spec_cost(bc) == Some(bcost as nat),
                None => true,
            },
        ensures
            match r {
                Some((rc, rcost)) => self.spec_cost(rc) == Some(rcost as nat),
                None => true,
            },
            (match r {
                Some((rc, _)) => Some(rc),
                None => None::<SpatialCell>,
            }) == consider_step(*self, base as nat, match best {
                Some((bc, _)) => Some(bc),
                None => None::<SpatialCell>,
            }, x as int, y as int),
    {
        if x < i32::MIN as i64 || x > i32::MAX as i64 || y < i32::MIN as i64 || y > i32::MAX as i64 {
            return best;
        }
        let n = SpatialCell { x: x as i32, y: y as i32 };
        match self.cost_u64(n) {
            Some(cn) => {
                if cn < base {
                    let better = match best {
                        None => true,
                        Some((bc, bcost)) => cn < bcost || (cn == bcost && (n.x < bc.x || (n.x == bc.x && n.y < bc.y))),
                    };
                    if better {
                        return Some((n, cn));
                    }
                }
                best
            },
            None => best,
        }
    }

    /// The step from `cell` towards the goal: blocked and unreachable cells stay put, the goal
    /// stays put, and any other cell moves towards its cheapest cheaper neighbour.
    pub fn step_from(&self, cell: SpatialCell, cell_size_mm: i32) -> (r: FlowFieldStep)
        requires
            self.wf(),
        ensures
            r == flow_step(*self, cell, cell_size_mm),
    {
        let still = MovementDelta { dx_mm: 0, dy_mm: 0 };
        match find_key(&self.blocked_keys, cell_key_of(cell)) {
            Some(_) => {
                return FlowFieldStep { from_cell: cell, next_cell: None, movement_delta: still, cost: None, result: FlowFieldStepResult::Blocked };
            },
            None => {},
        }
        let cost = match self.cost_u64(cell) {
            Some(c) => c,
            None => {
                return FlowFieldStep { from_cell: cell, next_cell: None, movement_delta: still, cost: None, result: FlowFieldStepResult::Unreachable };
            },
        };
        if cell == self.goal_cell {
            return FlowFieldStep { from_cell: cell, next_cell: None, movement_delta: still, cost: Some(cost as u32), result: FlowFieldStepResult::AtGoal };
        }
        let x = cell.x as i64;
        let y = cell.y as i64;
        let b0 = self.consider_neighbor(cost, None, x - 1, y);
        let b1 = self.consider_neighbor(cost, b0, x, y - 1);
        let b2 = self.consider_neighbor(cost, b1, x, y + 1);
        let b3 = self.consider_neighbor(cost, b2, x + 1, y);
        match b3 {
            None => FlowFieldStep { from_cell: cell, next_cell: None, movement_delta: still, cost: Some(cost as u32), result: FlowFieldStepResult::Unreachable },
            Some((n, _)) => {
                let len = if cell_size_mm < 250 { cell_size_mm } else { 250 };
                let sx: i32 = if n.x > cell.x { 1 } else if n.x < cell.x { -1 } else { 0 };
                let sy: i32 = if n.y > cell.y { 1 } else if n.y < cell.y { -1 } else { 0 };
                FlowFieldStep {
                    from_cell: cell,
                    next_cell: Some(n),
                    movement_delta: MovementDelta { dx_mm: signed_len(sx, len), dy_mm: signed_len(sy, len) },
                    cost: Some(cost as u32),
                    result: FlowFieldStepResult::NextCell,
                }
            },
        }
    }
}

/// The checksum of the local MapData v0 fixture.
pub const MAPDATA_V0_LOCAL_FIXTURE_CHECKSUM: &'static str = "sum16:3e03";

/// The most flow fields a cache keeps.
pub const FLOW_FIELD_CACHE_ENTRY_LIMIT: usize = 64;

#[derive(Debug, Clone, PartialEq, Eq)]
pub struct FlowFieldRequest {
    pub bounds: FlowFieldBounds,
    pub goal_cell: SpatialCell,
    pub blocked_cells: Vec<SpatialCell>,
    pub map_checksum: &'static str,
}

#[derive(Debug, Clone, Copy, Default, PartialEq, Eq, Structural)]
pub struct FlowFieldCacheStats {
    pub request_count: u64,
    pub build_count: u64,
    pub hit_count: u64,
    pub eviction_count: u64,
    pub invalidated_entry_count: u64,
}

/// What identifies a cached flow field: bounds, goal, the sorted keys of every requested
/// blocked cell, and the map checksum's bytes.
pub type CacheKeyView = (FlowFieldBounds, SpatialCell, Seq<u64>, Seq<u8>);

#[derive(Debug, Clone, PartialEq, Eq)]
struct FlowFieldCacheKey {
    bounds: FlowFieldBounds,
    goal_cell: SpatialCell,
    blocked_keys: Vec<u64>,
    map_checksum: &'static str,
}

impl FlowFieldCacheKey {
    spec fn view_key(&self) -> CacheKeyView {
        (self.bounds, self.goal_cell, self.blocked_keys@, self.map_checksum.spec_bytes())
    }
}

/// The cache key of a request: the requested blocked cells as sorted keys, without repeats.
pub open spec fn request_key_matches(r: FlowFieldRequest, k: CacheKeyView) -> bool {
    &&& k.0 == r.bounds
    &&& k.1 == r.goal_cell
    &&& strictly_increasing(k.2)
    &&& forall|c: SpatialCell| #[trigger] k.2.contains(cell_key(c) as u64) <==> r.blocked_cells@.contains(c)
    &&& k.3 == r.map_checksum.spec_bytes()
}

/// Lexicographic order of key sequences from position `i` on.
pub open spec fn lex_less_u64(a: Seq<u64>, b: Seq<u64>, i: int) -> bool
    decreases a.len() - i,
{
    if i >= a.len() {
        i < b.len()
    } else if i >= b.len() {
        false
    } else if a[i] < b[i] {
        true
    } else if a[i] > b[i] {
        false
    } else {
        lex_less_u64(a, b, i + 1)
    }
}

/// Lexicographic order of byte sequences from position `i` on.
pub open spec fn lex_less_u8(a: Seq<u8>, b: Seq<u8>, i: int) -> bool
    decreases a.len() - i,
{
    if i >= a.len() {
        i < b.len()
    } else if i >= b.len() {
        false
    } else if a[i] < b[i] {
        true
    } else if a[i] > b[i] {
        false
    } else {
        lex_less_u8(a, b, i + 1)
    }
}

/// The order of cache keys: bounds, then goal, then blocked cells, then checksum.
pub open spec fn key_less(a: CacheKeyView, b: CacheKeyView) -> bool {
    let ab = (a.0.min_x, a.0.min_y, a.0.max_x, a.0.max_y);
    let bb = (b.0.min_x, b.0.min_y, b.0.max_x, b.0.max_y);
    if ab != bb {
        ab.0 < bb.0 || (ab.0 == bb.0 && (ab.1 < bb.1 || (ab.1 == bb.1 && (ab.2 < bb.2 || (ab.2 == bb.2 && ab.3 < bb.3)))))
    } else if a.1 != b.1 {
        a.1.x < b.1.x || (a.1.x == b.1.x && a.1.y < b.1.y)
    } else if a.2 != b.2 {
        lex_less_u64(a.2, b.2, 0)
    } else {
        lex_less_u8(a.3, b.3, 0)
    }
}

/// Two key sequences that agree before `i` and where neither is less are equal.
pub proof fn lemma_lex_u64_total(a: Seq<u64>, b: Seq<u64>, i: int)
    requires
        0 <= i <= a.len(),
        i <= b.len(),
        forall|j: int| 0 <= j < i ==> a[j] == b[j],
        !lex_less_u64(a, b, i),
        !lex_less_u64(b, a, i),
    ensures
        a == b,
    decreases a.len() - i,
{
    if i < a.len() && i < b.len() {
        lemma_lex_u64_total(a, b, i + 1);
    } else {
        assert(a =~= b);
    }
}

/// Two byte sequences that agree before `i` and where neither is less are equal.
pub proof fn lemma_lex_u8_total(a: Seq<u8>, b: Seq<u8>, i: int)
    requires
        0 <= i <= a.len(),
        i <= b.len(),
        forall|j: int| 0 <= j < i ==> a[j] == b[j],
        !lex_less_u8(a, b, i),
        !lex_less_u8(b, a, i),
    ensures
        a == b,
    decreases a.len() - i,
{
    if i < a.len() && i < b.len() {
        lemma_lex_u8_total(a, b, i + 1);
    } else {
        assert(a =~= b);
    }
}

/// The key order is total: of two distinct keys, one is less.
pub proof fn lemma_key_total(a: CacheKeyView, b: CacheKeyView)
    requires
        a != b,
    ensures
        key_less(a, b) || key_less(b, a),
{
    if !key_less(a, b) && !key_less(b, a) {
        if a.0 == b.0 && a.1 == b.1 {
            if a.2 != b.2 {
                lemma_lex_u64_total(a.2, b.2, 0);
            } else {
                lemma_lex_u8_total(a.3, b.3, 0);
            }
        }
    }
}

/// Compares key sequences lexicographically.
pub(crate) fn keys_less(a: &Vec<u64>, b: &Vec<u64>) -> (r: bool)
    ensures
        r == lex_less_u64(a@, b@, 0),
{
    let mut i: usize = 0;
    while i < a.len() && i < b.len()
        invariant
            i <= a@.len(),
            i <= b@.len(),
            lex_less_u64(a@, b@, 0) == lex_less_u64(a@, b@, i as int),
        decreases a@.len() - i,
    {
        if a[i] < b[i] {
            return true;
        }
        if a[i] > b[i] {
            return false;
        }
        i += 1;
    }
    i < b.len() && i >= a.len()
}

/// Compares byte sequences lexicographically.
pub(crate) fn bytes_less(a: &[u8], b: &[u8]) -> (r: bool)
    ensures
        r == lex_less_u8(a@, b@, 0),
{
    let mut i: usize = 0;
    while i < a.len() && i < b.len()
        invariant
            i <= a@.len(),
            i <= b@.len(),
            lex_less_u8(a@, b@, 0) == lex_less_u8(a@, b@, i as int),
        decreases a@.len() - i,
    {
        if a[i] < b[i] {
            return true;
        }
        if a[i] > b[i] {
            return false;
        }
        i += 1;
    }
    i < b.len() && i >= a.len()
}

/// Whether two key vectors are equal.
pub(crate) fn keys_equal(a: &Vec<u64>, b: &Vec<u64>) -> (r: bool)
    ensures
        r == (a@ == b@),
{
    if a.len() != b.len() {
        return false;
    }
    let mut i: usize = 0;
    while i < a.len()
        invariant
            a@.len() == b@.len(),
            i <= a@.len(),
            forall|j: int| 0 <= j < i ==> a@[j] == b@[j],
        decreases a@.len() - i,
    {
        if a[i] != b[i] {
            return false;
        }
        i += 1;
    }
    assert(a@ =~= b@);
    true
}

/// Whether two byte slices are equal.
fn bytes_equal(a: &[u8], b: &[u8]) -> (r: bool)
    ensures
        r == (a@ == b@),
{
    if a.len() != b.len() {
        return false;
    }
    let mut i: usize = 0;
    while i < a.len()
        invariant
            a@.len() == b@.len(),
            i <= a@.len(),
            forall|j: int| 0 <= j < i ==> a@[j] == b@[j],
        decreases a@.len() - i,
    {
        if a[i] != b[i] {
            return false;
        }
        i += 1;
    }
    assert(a@ =~= b@);
    true
}

impl FlowFieldCacheKey {
    fn of_request(request: &FlowFieldRequest) -> (r: Self)
        ensures
            request_key_matches(*request, r.view_key()),
    {
        let mut keys: Vec<u64> = Vec::new();
        let mut p: usize = 0;
        while p < request.blocked_cells.len()
            invariant
                p <= request.blocked_cells@.len(),
                strictly_increasing(keys@),
                forall|c: SpatialCell| #[trigger] keys@.contains(cell_key(c) as u64) <==> request.blocked_cells@.take(p as int).contains(c),
            decreases request.blocked_cells@.len() - p,
        {
            let cell = request.blocked_cells[p];
            let k = cell_key_of(cell);
            let ghost before = keys@;
            insert_key(&mut keys, k);
            proof {
                let t = request.blocked_cells@.take(p + 1);
                assert(t == request.blocked_cells@.take(p as int).push(cell));
                assert forall|c: SpatialCell| #[trigger] keys@.contains(cell_key(c) as u64) <==> t.contains(c) by {
                    lemma_cell_key(c, cell);
                    if t.contains(c) && c != cell {
                        let j = choose|j: int| 0 <= j < t.len() && t[j] == c;
                        assert(request.blocked_cells@.take(p as int)[j] == c);
                    }
                    if request.blocked_cells@.take(p as int).contains(c) {
                        let j = choose|j: int| 0 <= j < p && request.blocked_cells@.take(p as int)[j] == c;
                        assert(t[j] == c);
                    }
                    if c == cell {
                        assert(t[p as int] == c);
                    }
                }
            }
            p += 1;
        }
        assert(request.blocked_cells@.take(request.blocked_cells@.len() as int) == request.blocked_cells@);
        FlowFieldCacheKey {
            bounds: request.bounds,
            goal_cell: request.goal_cell,
            blocked_keys: keys,
            map_checksum: request.map_checksum,
        }
    }

    fn same(&self, other: &Self) -> (r: bool)
        ensures
            r == (self.view_key() == other.view_key()),
    {
        self.bounds == other.bounds && self.goal_cell == other.goal_cell && keys_equal(&self.blocked_keys, &other.blocked_keys)
            && bytes_equal(self.map_checksum.as_bytes(), other.map_checksum.as_bytes())
    }

    fn less(&self, other: &Self) -> (r: bool)
        ensures
            r == key_less(self.view_key(), other.view_key()),
    {
        let a = self.bounds;
        let b = other.bounds;
        if a != b {
            return a.min_x < b.min_x || (a.min_x == b.min_x && (a.min_y < b.min_y || (a.min_y == b.min_y && (a.max_x < b.max_x
                || (a.max_x == b.max_x && a.max_y < b.max_y)))));
        }
        if self.goal_cell != other.goal_cell {
            return self.goal_cell.x < other.goal_cell.x || (self.goal_cell.x == other.goal_cell.x && self.goal_cell.y < other.goal_cell.y);
        }
        if !keys_equal(&self.blocked_keys, &other.blocked_keys) {
            return keys_less(&self.blocked_keys, &other.blocked_keys);
        }
        bytes_less(self.map_checksum.as_bytes(), other.map_checksum.as_bytes())
    }
}

/// Two strictly increasing sequences with the same elements are equal.
pub proof fn lemma_sorted_unique(a: Seq<u64>, b: Seq<u64>)
    requires
        strictly_increasing(a),
        strictly_increasing(b),
        forall|x: u64| #[trigger] a.contains(x) <==> b.contains(x),
    ensures
        a == b,
    decreases a.len(),
{
    if a.len() == 0 || b.len() == 0 {
        if b.len() > 0 {
            assert(b.contains(b[0]));
            assert(a.contains(b[0]));
        }
        if a.len() > 0 {
            assert(a.contains(a[0]));
            assert(b.contains(a[0]));
        }
        assert(a =~= b);
    } else {
        assert(a.contains(a[0]));
        assert(b.contains(a[0]));
        assert(b.contains(b[0]));
        assert(a.contains(b[0]));
        let i = choose|i: int| 0 <= i < b.len() && b[i] == a[0];
        let j = choose|j: int| 0 <= j < a.len() && a[j] == b[0];
        if i > 0 && j > 0 {
            assert(b[0] < b[i]);
            assert(a[0] < a[j]);
        } else if i > 0 {
            assert(b[0] < b[i]);
        } else if j > 0 {
            assert(a[0] < a[j]);
        }
        assert(a[0] == b[0]);
        let a1 = a.drop_first();
        let b1 = b.drop_first();
        assert forall|x: u64| #[trigger] a1.contains(x) <==> b1.contains(x) by {
            if a1.contains(x) {
                let p = choose|p: int| 0 <= p < a1.len() && a1[p] == x;
                assert(a[p + 1] == x);
                assert(a.contains(x));
                assert(b.contains(x));
                let q = choose|q: int| 0 <= q < b.len() && b[q] == x;
                assert(a[0] < a[p + 1]);
                assert(q != 0);
                assert(b1[q - 1] == x);
            }
            if b1.contains(x) {
                let p = choose|p: int| 0 <= p < b1.len() && b1[p] == x;
                assert(b[p + 1] == x);
                assert(b.contains(x));
                assert(a.contains(x));
                let q = choose|q: int| 0 <= q < a.len() && a[q] == x;
                assert(b[0] < b[p + 1]);
                assert(q != 0);
                assert(a1[q - 1] == x);
            }
        }
        lemma_sorted_unique(a1, b1);
        assert(a.len() == b.len());
        assert forall|k: int| 0 <= k < a.len() implies a[k] == b[k] by {
            if k > 0 {
                assert(a[k] == a1[k - 1]);
                assert(b[k] == b1[k - 1]);
            }
        }
        assert(a =~= b);
    }
}

/// The cache key of a request.
pub open spec fn request_key(r: FlowFieldRequest) -> CacheKeyView {
    choose|k: CacheKeyView| request_key_matches(r, k)
}

/// A request has exactly one cache key.
pub proof fn lemma_request_key(r: FlowFieldRequest, k: CacheKeyView)
    requires
        request_key_matches(r, k),
    ensures
        request_key(r) == k,
{
    let c = request_key(r);
    assert(request_key_matches(r, c));
    assert forall|x: u64| #[trigger] c.2.contains(x) <==> k.2.contains(x) by {
        let cell = SpatialCell { x: ((x / 0x1_0000_0000) - 0x8000_0000) as i32, y: ((x % 0x1_0000_0000) - 0x8000_0000) as i32 };
        assert(cell_key(cell) == x as int);
        assert(c.2.contains(cell_key(cell) as u64) <==> r.blocked_cells@.contains(cell));
    }
    lemma_sorted_unique(c.2, k.2);
}


/// Lexicographic order of key sequences is irreflexive and transitive.
pub proof fn lemma_lex_u64_order(a: Seq<u64>, b: Seq<u64>, c: Seq<u64>, i: int)
    requires
        0 <= i,
    ensures
        !lex_less_u64(a, a, i),
        lex_less_u64(a, b, i) && lex_less_u64(b, c, i) ==> lex_less_u64(a, c, i),
    decreases a.len() - i,
{
    if i < a.len() && i < b.len() && i < c.len() {
        lemma_lex_u64_order(a, b, c, i + 1);
    } else if i < a.len() {
        lemma_lex_u64_order(a, b, c, i + 1);
    }
}

/// Lexicographic order of byte sequences is irreflexive and transitive.
pub proof fn lemma_lex_u8_order(a: Seq<u8>, b: Seq<u8>, c: Seq<u8>, i: int)
    requires
        0 <= i,
    ensures
        !lex_less_u8(a, a, i),
        lex_less_u8(a, b, i) && lex_less_u8(b, c, i) ==> lex_less_u8(a, c, i),
    decreases a.len() - i,
{
    if i < a.len() && i < b.len() && i < c.len() {
        lemma_lex_u8_order(a, b, c, i + 1);
    } else if i < a.len() {
        lemma_lex_u8_order(a, b, c, i + 1);
    }
}

/// The key order is irreflexive and transitive.
pub proof fn lemma_key_order(x: CacheKeyView, y: CacheKeyView, z: CacheKeyView)
    ensures
        !key_less(x, x),
        key_less(x, y) && key_less(y, z) ==> key_less(x, z),
{
    lemma_lex_u64_order(x.2, y.2, z.2, 0);
    lemma_lex_u8_order(x.3, y.3, z.3, 0);
    lemma_lex_u64_order(x.2, x.2, x.2, 0);
    lemma_lex_u8_order(x.3, x.3, x.3, 0);
}

/// A key that is not below `b` is not below a key below `b`.
proof fn lemma_key_less_trans_helper(x: CacheKeyView, b: CacheKeyView, i: CacheKeyView)
    requires
        !key_less(x, b),
        key_less(i, b),
    ensures
        !key_less(x, i),
{
    lemma_key_order(x, i, b);
}

impl FlowFieldMap {
    /// Two maps with identical contents.
    pub closed spec fn same_field(&self, other: FlowFieldMap) -> bool {
        &&& self.bounds == other.bounds
        &&& self.goal_cell == other.goal_cell
        &&& self.blocked_keys@ == other.blocked_keys@
        &&& self.keys@ == other.keys@
        &&& self.cells@ == other.cells@
        &&& self.costs@ == other.costs@
    }

    pub proof fn lemma_same_field(&self, other: FlowFieldMap)
        requires
            self.same_field(other),
        ensures
            self.wf() == other.wf(),
            self.spec_bounds() == other.spec_bounds(),
            self.spec_goal() == other.spec_goal(),
            self.spec_blocked() == other.spec_blocked(),
            self.spec_cells() == other.spec_cells(),
    {
    }

    /// A copy of the map.
    pub fn duplicate(&self) -> (r: FlowFieldMap)
        ensures
            r.same_field(*self),
    {
        FlowFieldMap {
            bounds: self.bounds,
            goal_cell: self.goal_cell,
            blocked_keys: copy_vec(&self.blocked_keys),
            keys: copy_vec(&self.keys),
            cells: copy_vec(&self.cells),
            costs: copy_vec(&self.costs),
        }
    }
}

/// A copy of a vector of plain values.
pub(crate) fn copy_vec<T: Copy>(v: &Vec<T>) -> (r: Vec<T>)
    ensures
        r@ == v@,
{
    let mut out: Vec<T> = Vec::with_capacity(v.len());
    let mut i: usize = 0;
    while i < v.len()
        invariant
            i <= v@.len(),
            out@ == v@.take(i as int),
        decreases v@.len() - i,
    {
        out.push(v[i]);
        i += 1;
    }
    assert(v@.take(v@.len() as int) == v@);
    out
}

/// A cached flow field agrees with its key: same bounds and goal, and its blocked cells are the
/// key's blocked cells that lie inside the bounds.
pub open spec fn entry_matches(k: CacheKeyView, m: FlowFieldMap) -> bool {
    &&& m.wf()
    &&& m.spec_bounds() == k.0
    &&& m.spec_goal() == k.1
    &&& strictly_increasing(m.spec_blocked())
    &&& forall|c: SpatialCell| #[trigger] m.spec_blocked().contains(cell_key(c) as u64)
        <==> (k.2.contains(cell_key(c) as u64) && in_bounds(k.0, c.x as int, c.y as int))
}

/// A bounded cache of flow fields keyed by request, evicting the smallest key when full.
#[derive(Debug, Clone, PartialEq, Eq)]
pub struct FlowFieldCache {
    keys: Vec<FlowFieldCacheKey>,
    maps: Vec<FlowFieldMap>,
    stats: FlowFieldCacheStats,
}

impl FlowFieldCache {
    /// Entries have distinct keys, agree with them, and there are at most the entry limit.
    pub closed spec fn wf(&self) -> bool {
        &&& self.keys@.len() == self.maps@.len()
        &&& self.keys@.len() <= FLOW_FIELD_CACHE_ENTRY_LIMIT
        &&& forall|i: int, j: int| 0 <= i < j < self.keys@.len() ==> self.keys@[i].view_key() != self.keys@[j].view_key()
        &&& forall|i: int| 0 <= i < self.keys@.len() ==> entry_matches(#[trigger] self.keys@[i].view_key(), self.maps@[i])
    }

    /// The cached entries, oldest first.
    pub closed spec fn spec_entries(&self) -> Seq<(CacheKeyView, FlowFieldMap)> {
        Seq::new(self.keys@.len(), |i: int| (self.keys@[i].view_key(), self.maps@[i]))
    }

    pub closed spec fn spec_stats(&self) -> FlowFieldCacheStats {
        self.stats
    }

    pub fn new() -> (r: Self)
        ensures
            r.wf(),
            r.spec_entries().len() == 0,
            r.spec_stats() == (FlowFieldCacheStats {
                request_count: 0,
                build_count: 0,
                hit_count: 0,
                eviction_count: 0,
                invalidated_entry_count: 0,
            }),
    {
        FlowFieldCache {
            keys: Vec::new(),
            maps: Vec::new(),
            stats: FlowFieldCacheStats {
                request_count: 0,
                build_count: 0,
                hit_count: 0,
                eviction_count: 0,
                invalidated_entry_count: 0,
            },
        }
    }

    pub fn len(&self) -> (r: usize)
        ensures
            r == self.spec_entries().len(),
    {
        self.keys.len()
    }

    pub fn is_empty(&self) -> (r: bool)
        ensures
            r == (self.spec_entries().len() == 0),
    {
        self.keys.len() == 0
    }

    pub fn stats(&self) -> (r: FlowFieldCacheStats)
        ensures
            r == self.spec_stats(),
    {
        self.stats
    }

    /// Whether the cache holds a field for this request.
    pub fn contains_request(&self, request: &FlowFieldRequest) -> (r: bool)
        ensures
            r == (exists|i: int| 0 <= i < self.spec_entries().len() && #[trigger] self.spec_entries()[i].0 == request_key(*request)),
    {
        let key = FlowFieldCacheKey::of_request(request);
        proof {
            lemma_request_key(*request, key.view_key());
        }
        match self.position(&key) {
            Some(i) => {
                assert(self.spec_entries()[i as int].0 == request_key(*request));
                true
            },
            None => false,
        }
    }

    fn position(&self, key: &FlowFieldCacheKey) -> (r: Option<usize>)
        ensures
            match r {
                Some(i) => i < self.keys@.len() && self.keys@[i as int].view_key() == key.view_key(),
                None => forall|i: int| 0 <= i < self.keys@.len() ==> #[trigger] self.keys@[i].view_key() != key.view_key(),
            },
    {
        let mut i: usize = 0;
        while i < self.keys.len()
            invariant
                i <= self.keys@.len(),
                forall|j: int| 0 <= j < i ==> #[trigger] self.keys@[j].view_key() != key.view_key(),
            decreases self.keys@.len() - i,
        {
            if self.keys[i].same(key) {
                return Some(i);
            }
            i += 1;
        }
        None
    }

    /// Position of the entry with the smallest key.
    fn smallest(&self) -> (r: usize)
        requires
            self.keys@.len() > 0,
        ensures
            r < self.keys@.len(),
            forall|j: int| 0 <= j < self.keys@.len() ==> !key_less(#[trigger] self.keys@[j].view_key(), self.keys@[r as int].view_key()),
    {
        let mut best: usize = 0;
        let mut i: usize = 1;
        proof {
            lemma_key_order(self.keys@[0].view_key(), self.keys@[0].view_key(), self.keys@[0].view_key());
        }
        while i < self.keys.len()
            invariant
                self.keys@.len() > 0,
                best < i <= self.keys@.len(),
                forall|j: int| 0 <= j < i ==> !key_less(#[trigger] self.keys@[j].view_key(), self.keys@[best as int].view_key()),
            decreases self.keys@.len() - i,
        {
            if self.keys[i].less(&self.keys[best]) {
                proof {
                    assert forall|j: int| 0 <= j < i + 1 implies !key_less(#[trigger] self.keys@[j].view_key(), self.keys@[i as int].view_key()) by {
                        if j == i {
                            lemma_key_order(self.keys@[j].view_key(), self.keys@[j].view_key(), self.keys@[j].view_key());
                        } else {
                            self::lemma_key_less_trans_helper(self.keys@[j].view_key(), self.keys@[best as int].view_key(), self.keys@[i as int].view_key());
                        }
                    }
                }
                best = i;
            }
            i += 1;
        }
        best
    }
}

/// Entry `m` holds the smallest key.
pub open spec fn is_smallest(e: Seq<(CacheKeyView, FlowFieldMap)>, m: int) -> bool {
    0 <= m < e.len() && forall|j: int| 0 <= j < e.len() && j != m ==> key_less(e[m].0, #[trigger] e[j].0)
}

/// The position of the entry with the smallest key.
pub open spec fn smallest_index(e: Seq<(CacheKeyView, FlowFieldMap)>) -> int {
    choose|m: int| is_smallest(e, m)
}

/// At most one entry holds the smallest key.
pub proof fn lemma_smallest_index(e: Seq<(CacheKeyView, FlowFieldMap)>, m: int)
    requires
        is_smallest(e, m),
    ensures
        smallest_index(e) == m,
{
    let c = smallest_index(e);
    assert(is_smallest(e, c));
    if c != m {
        assert(key_less(e[m].0, e[c].0));
        assert(key_less(e[c].0, e[m].0));
        lemma_key_order(e[m].0, e[c].0, e[m].0);
    }
}

impl FlowFieldCache {
    /// Returns the cached flow field for a request, building and caching it on a miss. When the
    /// cache is full, a miss first evicts the entry with the smallest key.
    pub fn get_or_build(&mut self, request: FlowFieldRequest) -> (r: Result<FlowFieldMap, FlowFieldError>)
        requires
            old(self).wf(),
            old(self).spec_stats().request_count < u64::MAX,
            old(self).spec_stats().build_count < u64::MAX,
            old(self).spec_stats().hit_count < u64::MAX,
            old(self).spec_stats().eviction_count < u64::MAX,
        ensures
            final(self).wf(),
            request_key_matches(request, request_key(request)),
            ({
                let k = request_key(request);
                let e = old(self).spec_entries();
                let st = old(self).spec_stats();
                let fs = final(self).spec_stats();
                let hit = exists|i: int| 0 <= i < e.len() && #[trigger] e[i].0 == k;
                let evicting = !hit && e.len() >= FLOW_FIELD_CACHE_ENTRY_LIMIT;
                let invalid = request.bounds.min_x > request.bounds.max_x || request.bounds.min_y > request.bounds.max_y;
                &&& fs.request_count == st.request_count + 1
                &&& fs.invalidated_entry_count == st.invalidated_entry_count
                &&& fs.hit_count == st.hit_count + (if hit { 1int } else { 0int })
                &&& fs.eviction_count == st.eviction_count + (if evicting { 1int } else { 0int })
                &&& fs.build_count == st.build_count + (if !hit && r is Ok { 1int } else { 0int })
                &&& hit ==> final(self).spec_entries() == e && r is Ok
                    && forall|i: int| 0 <= i < e.len() && #[trigger] e[i].0 == k ==> r->Ok_0.same_field(e[i].1)
                &&& !hit ==> (invalid <==> r == Err::<FlowFieldMap, FlowFieldError>(FlowFieldError::InvalidBounds))
                &&& !hit && !invalid ==> (r == Err::<FlowFieldMap, FlowFieldError>(FlowFieldError::GoalBlocked)
                    <==> (request.blocked_cells@.contains(request.goal_cell)
                        && in_bounds(request.bounds, request.goal_cell.x as int, request.goal_cell.y as int)))
                &&& !hit ==> {
                    let base = if evicting { e.remove(smallest_index(e)) } else { e };
                    &&& (r is Ok ==> final(self).spec_entries().len() == base.len() + 1
                        && final(self).spec_entries().drop_last() == base
                        && final(self).spec_entries().last().0 == k
                        && final(self).spec_entries().last().1.same_field(r->Ok_0)
                        && entry_matches(k, r->Ok_0))
                    &&& (r is Err ==> final(self).spec_entries() == base)
                }
            }),
    {
        let ghost e = self.spec_entries();
        self.stats.request_count = self.stats.request_count + 1;
        let key = FlowFieldCacheKey::of_request(&request);
        proof {
            lemma_request_key(request, key.view_key());
        }
        match self.position(&key) {
            Some(i) => {
                self.stats.hit_count = self.stats.hit_count + 1;
                proof {
                    assert(e[i as int].0 == key.view_key());
                    assert forall|j: int| 0 <= j < e.len() && #[trigger] e[j].0 == key.view_key() implies j == i by {
                        if j != i {
                            if j < i {
                                assert(self.keys@[j].view_key() != self.keys@[i as int].view_key());
                            } else {
                                assert(self.keys@[i as int].view_key() != self.keys@[j].view_key());
                            }
                        }
                    }
                    assert(self.spec_entries() =~= e);
                }
                return Ok(self.maps[i].duplicate());
            },
            None => {},
        }
        proof {
            assert(!(exists|i: int| 0 <= i < e.len() && #[trigger] e[i].0 == key.view_key())) by {
                if exists|i: int| 0 <= i < e.len() && #[trigger] e[i].0 == key.view_key() {
                    let i = choose|i: int| 0 <= i < e.len() && #[trigger] e[i].0 == key.view_key();
                    assert(self.keys@[i].view_key() == key.view_key());
                }
            }
        }
        let ghost mut base = e;
        if self.keys.len() >= FLOW_FIELD_CACHE_ENTRY_LIMIT {
            let m = self.smallest();
            proof {
                assert forall|j: int| 0 <= j < e.len() && j != m implies key_less(e[m as int].0, #[trigger] e[j].0) by {
                    assert(!key_less(self.keys@[j].view_key(), self.keys@[m as int].view_key()));
                    if j < m {
                        assert(self.keys@[j].view_key() != self.keys@[m as int].view_key());
                    } else {
                        assert(self.keys@[m as int].view_key() != self.keys@[j].view_key());
                    }
                    lemma_key_total(e[m as int].0, e[j].0);
                }
                assert(is_smallest(e, m as int));
                lemma_smallest_index(e, m as int);
                base = e.remove(m as int);
            }
            self.keys.remove(m);
            self.maps.remove(m);
            self.stats.eviction_count = self.stats.eviction_count + 1;
            proof {
                assert(self.spec_entries() =~= base);
                assert forall|i: int, j: int| 0 <= i < j < self.keys@.len() implies self.keys@[i].view_key() != self.keys@[j].view_key() by {
                    if i < m && j >= m {
                        assert(self.keys@[j] == old(self).keys@[j + 1]);
                    } else if i >= m {
                        assert(self.keys@[i] == old(self).keys@[i + 1]);
                        assert(self.keys@[j] == old(self).keys@[j + 1]);
                    }
                }
                assert forall|i: int| 0 <= i < self.keys@.len() implies entry_matches(#[trigger] self.keys@[i].view_key(), self.maps@[i]) by {
                    if i >= m {
                        assert(self.keys@[i] == old(self).keys@[i + 1]);
                        assert(self.maps@[i] == old(self).maps@[i + 1]);
                    }
                }
            }
        } else {
            proof {
                assert(self.spec_entries() =~= base);
            }
        }
        let ghost before_keys = self.keys@;
        let ghost before_maps = self.maps@;
        match FlowFieldMap::build(request.bounds, request.goal_cell, request.blocked_cells) {
            Err(err) => {
                assert(self.spec_entries() =~= base);
                Err(err)
            },
            Ok(field) => {
                let out = field.duplicate();
                self.keys.push(key);
                self.maps.push(field);
                self.stats.build_count = self.stats.build_count + 1;
                proof {
                    let k = key.view_key();
                    assert(entry_matches(k, self.maps@[self.maps@.len() - 1]));
                    assert forall|i: int, j: int| 0 <= i < j < self.keys@.len() implies self.keys@[i].view_key() != self.keys@[j].view_key() by {
                        if j == self.keys@.len() - 1 {
                            assert(self.keys@[i] == before_keys[i]);
                            assert(base[i].0 == before_keys[i].view_key());
                        } else {
                            assert(self.keys@[i] == before_keys[i]);
                            assert(self.keys@[j] == before_keys[j]);
                        }
                    }
                    assert forall|i: int| 0 <= i < self.keys@.len() implies entry_matches(#[trigger] self.keys@[i].view_key(), self.maps@[i]) by {
                        if i < self.keys@.len() - 1 {
                            assert(self.keys@[i] == before_keys[i]);
                            assert(self.maps@[i] == before_maps[i]);
                        }
                    }
                    assert(self.spec_entries().drop_last() =~= base);
                    out.lemma_same_field(self.maps@[self.maps@.len() - 1]);
                    self.maps@[self.maps@.len() - 1].lemma_same_field(out);
                }
                Ok(out)
            },
        }
    }

    /// Drops every cached field built for a map checksum and returns how many were dropped.
    pub fn invalidate_map_checksum(&mut self, map_checksum: &'static str) -> (r: usize)
        requires
            old(self).wf(),
            old(self).spec_stats().invalidated_entry_count + (old(self).spec_entries().len()
                - old(self).spec_entries().filter(|en: (CacheKeyView, FlowFieldMap)| en.0.3 != map_checksum.spec_bytes()).len())
                <= u64::MAX,
        ensures
            final(self).wf(),
            final(self).spec_entries() == old(self).spec_entries().filter(|en: (CacheKeyView, FlowFieldMap)| en.0.3 != map_checksum.spec_bytes()),
            r == old(self).spec_entries().len() - final(self).spec_entries().len(),
            final(self).spec_stats() == (FlowFieldCacheStats {
                invalidated_entry_count: (old(self).spec_stats().invalidated_entry_count + r) as u64,
                ..old(self).spec_stats()
            }),
    {
        let ghost e = self.spec_entries();
        let ghost pred = |en: (CacheKeyView, FlowFieldMap)| en.0.3 != map_checksum.spec_bytes();
        let before = self.keys.len();
        let ghost mut done: int = 0;
        let mut i: usize = 0;
        proof {
            assert(e.take(0).filter(pred) =~= Seq::<(CacheKeyView, FlowFieldMap)>::empty());
            assert(self.spec_entries() =~= e.take(0).filter(pred) + e.skip(0));
        }
        while i < self.keys.len()
            invariant
                pred == (|en: (CacheKeyView, FlowFieldMap)| en.0.3 != map_checksum.spec_bytes()),
                self.wf(),
                self.stats == old(self).stats,
                before == e.len(),
                0 <= done <= e.len(),
                i == e.take(done).filter(pred).len(),
                self.spec_entries() == e.take(done).filter(pred) + e.skip(done),
            decreases e.len() - done,
        {
            proof {
                assert(self.spec_entries()[i as int] == e[done]);
                assert(e.take(done + 1) == e.take(done).push(e[done]));
                e.take(done).lemma_filter_push(e[done], pred);
            }
            let ghost entries = self.spec_entries();
            if bytes_equal(self.keys[i].map_checksum.as_bytes(), map_checksum.as_bytes()) {
                let ghost old_keys = self.keys@;
                let ghost old_maps = self.maps@;
                self.keys.remove(i);
                self.maps.remove(i);
                proof {
                    assert(!pred(e[done]));
                    let f0 = e.take(done).filter(pred);
                    assert(e.take(done + 1).filter(pred) == f0);
                    assert(self.spec_entries() =~= entries.remove(i as int));
                    assert((f0 + e.skip(done)).remove(i as int) =~= f0 + e.skip(done + 1));
                    assert(self.spec_entries() =~= e.take(done + 1).filter(pred) + e.skip(done + 1));
                    assert forall|a: int, b: int| 0 <= a < b < self.keys@.len() implies self.keys@[a].view_key() != self.keys@[b].view_key() by {
                        if a < i && b >= i {
                            assert(self.keys@[b] == old_keys[b + 1]);
                        } else if a >= i {
                            assert(self.keys@[a] == old_keys[a + 1]);
                            assert(self.keys@[b] == old_keys[b + 1]);
                        }
                    }
                    assert forall|a: int| 0 <= a < self.keys@.len() implies entry_matches(#[trigger] self.keys@[a].view_key(), self.maps@[a]) by {
                        if a >= i {
                            assert(self.keys@[a] == old_keys[a + 1]);
                            assert(self.maps@[a] == old_maps[a + 1]);
                        }
                    }
                    done = done + 1;
                }
            } else {
                proof {
                    assert(pred(e[done]));
                    let f0 = e.take(done).filter(pred);
                    assert(e.take(done + 1).filter(pred) == f0.push(e[done]));
                    assert((f0 + e.skip(done)) =~= (f0.push(e[done]) + e.skip(done + 1)));
                    assert(self.spec_entries() =~= e.take(done + 1).filter(pred) + e.skip(done + 1));
                    done = done + 1;
                }
                i += 1;
            }
        }
        proof {
            assert(done == e.len()) by {
                if done < e.len() {
                    assert(self.spec_entries().len() == i + (e.len() - done));
                }
            }
            assert(e.take(e.len() as int) == e);
            assert(self.spec_entries() =~= e.filter(pred));
        }
        let removed = before - self.keys.len();
        self.stats.invalidated_entry_count = self.stats.invalidated_entry_count + removed as u64;
        removed
    }
}

#[derive(Debug, Clone, Copy, PartialEq, Eq, Structural)]
pub enum MovementOptionFamily {
    DirectTargetSteering,
    GridCorridorPathing,
    FlowFieldObjective,
    FormationAnchor,
    LocalAvoidanceLayer,
}

impl MovementOptionFamily {
    pub fn as_str(self) -> (r: &'static str)
        ensures
            r@ == (match self {
                MovementOptionFamily::DirectTargetSteering => "direct_target_steering"@,
                MovementOptionFamily::GridCorridorPathing => "grid_corridor_pathing"@,
                MovementOptionFamily::FlowFieldObjective => "flow_field_objective"@,
                MovementOptionFamily::FormationAnchor => "formation_anchor"@,
                MovementOptionFamily::LocalAvoidanceLayer => "local_avoidance_layer"@,
            }),
    {
        match self {
            MovementOptionFamily::DirectTargetSteering => "direct_target_steering",
            MovementOptionFamily::GridCorridorPathing => "grid_corridor_pathing",
            MovementOptionFamily::FlowFieldObjective => "flow_field_objective",
            MovementOptionFamily::FormationAnchor => "formation_anchor",
            MovementOptionFamily::LocalAvoidanceLayer => "local_avoidance_layer",
        }
    }

    /// The position of the family in declaration order.
    pub fn ordinal(self) -> (r: u16)
        ensures
            r == (match self {
                MovementOptionFamily::DirectTargetSteering => 0u16,
                MovementOptionFamily::GridCorridorPathing => 1u16,
                MovementOptionFamily::FlowFieldObjective => 2u16,
                MovementOptionFamily::FormationAnchor => 3u16,
                MovementOptionFamily::LocalAvoidanceLayer => 4u16,
            }),
    {
        match self {
            MovementOptionFamily::DirectTargetSteering => 0,
            MovementOptionFamily::GridCorridorPathing => 1,
            MovementOptionFamily::FlowFieldObjective => 2,
            MovementOptionFamily::FormationAnchor => 3,
            MovementOptionFamily::LocalAvoidanceLayer => 4,
        }
    }
}

#[derive(Debug, Clone, Copy, PartialEq, Eq, Structural)]
pub enum MovementScaleScenarioId {
    SharedTarget1kDirect,
    ManyGroups5kCorridor,
    SharedObjective10kFlowField,
    Choke5kAvoidance,
    Formation1kAnchor,
}

impl MovementScaleScenarioId {
    pub fn as_str(self) -> (r: &'static str)
        ensures
            r@ == (match self {
                MovementScaleScenarioId::SharedTarget1kDirect => "nav_shared_target_1k_direct"@,
                MovementScaleScenarioId::ManyGroups5kCorridor => "nav_many_groups_5k_corridor"@,
                MovementScaleScenarioId::SharedObjective10kFlowField => "nav_shared_objective_10k_flow_field"@,
                MovementScaleScenarioId::Choke5kAvoidance => "nav_choke_5k_avoidance"@,
                MovementScaleScenarioId::Formation1kAnchor => "nav_formation_1k_anchor"@,
            }),
    {
        match self {
            MovementScaleScenarioId::SharedTarget1kDirect => "nav_shared_target_1k_direct",
            MovementScaleScenarioId::ManyGroups5kCorridor => "nav_many_groups_5k_corridor",
            MovementScaleScenarioId::SharedObjective10kFlowField => "nav_shared_objective_10k_flow_field",
            MovementScaleScenarioId::Choke5kAvoidance => "nav_choke_5k_avoidance",
            MovementScaleScenarioId::Formation1kAnchor => "nav_formation_1k_anchor",
        }
    }
}

#[derive(Debug, Clone, Copy, PartialEq, Eq)]
pub struct MovementScaleScenario {
    pub id: MovementScaleScenarioId,
    pub option_family: MovementOptionFamily,
    pub entity_count: usize,
    pub tick_count: u64,
    pub group_count: usize,
    pub cell_size_mm: i32,
    pub blocker_cell_count: usize,
    pub map_checksum: &'static str,
}

/// One scenario of the movement catalog, all on 2 m cells, 8 ticks and the local fixture map.
pub open spec fn movement_scenario(
    id: MovementScaleScenarioId,
    option_family: MovementOptionFamily,
    entity_count: usize,
    group_count: usize,
    blocker_cell_count: usize,
    s: MovementScaleScenario,
) -> bool {
    &&& s.id == id
    &&& s.option_family == option_family
    &&& s.entity_count == entity_count
    &&& s.tick_count == 8
    &&& s.group_count == group_count
    &&& s.cell_size_mm == 2_000
    &&& s.blocker_cell_count == blocker_cell_count
    &&& s.map_checksum@ == MAPDATA_V0_LOCAL_FIXTURE_CHECKSUM@
}

/// The movement scale scenarios: one per movement option family.
pub fn movement_scale_scenarios() -> (r: Vec<MovementScaleScenario>)
    ensures
        r@.len() == 5,
        movement_scenario(MovementScaleScenarioId::SharedTarget1kDirect, MovementOptionFamily::DirectTargetSteering, 1_000, 1, 0, r@[0]),
        movement_scenario(MovementScaleScenarioId::ManyGroups5kCorridor, MovementOptionFamily::GridCorridorPathing, 5_000, 25, 16, r@[1]),
        movement_scenario(MovementScaleScenarioId::SharedObjective10kFlowField, MovementOptionFamily::FlowFieldObjective, 10_000, 4, 32, r@[2]),
        movement_scenario(MovementScaleScenarioId::Choke5kAvoidance, MovementOptionFamily::LocalAvoidanceLayer, 5_000, 10, 24, r@[3]),
        movement_scenario(MovementScaleScenarioId::Formation1kAnchor, MovementOptionFamily::FormationAnchor, 1_000, 20, 8, r@[4]),
{
    let mut v: Vec<MovementScaleScenario> = Vec::new();
    v.push(MovementScaleScenario {
        id: MovementScaleScenarioId::SharedTarget1kDirect,
        option_family: MovementOptionFamily::DirectTargetSteering,
        entity_count: 1_000,
        tick_count: 8,
        group_count: 1,
        cell_size_mm: 2_000,
        blocker_cell_count: 0,
        map_checksum: MAPDATA_V0_LOCAL_FIXTURE_CHECKSUM,
    });
    v.push(MovementScaleScenario {
        id: MovementScaleScenarioId::ManyGroups5kCorridor,
        option_family: MovementOptionFamily::GridCorridorPathing,
        entity_count: 5_000,
        tick_count: 8,
        group_count: 25,
        cell_size_mm: 2_000,
        blocker_cell_count: 16,
        map_checksum: MAPDATA_V0_LOCAL_FIXTURE_CHECKSUM,
    });
    v.push(MovementScaleScenario {
        id: MovementScaleScenarioId::SharedObjective10kFlowField,
        option_family: MovementOptionFamily::FlowFieldObjective,
        entity_count: 10_000,
        tick_count: 8,
        group_count: 4,
        cell_size_mm: 2_000,
        blocker_cell_count: 32,
        map_checksum: MAPDATA_V0_LOCAL_FIXTURE_CHECKSUM,
    });
    v.push(MovementScaleScenario {
        id: MovementScaleScenarioId::Choke5kAvoidance,
        option_family: MovementOptionFamily::LocalAvoidanceLayer,
        entity_count: 5_000,
        tick_count: 8,
        group_count: 10,
        cell_size_mm: 2_000,
        blocker_cell_count: 24,
        map_checksum: MAPDATA_V0_LOCAL_FIXTURE_CHECKSUM,
    });
    v.push(MovementScaleScenario {
        id: MovementScaleScenarioId::Formation1kAnchor,
        option_family: MovementOptionFamily::FormationAnchor,
        entity_count: 1_000,
        tick_count: 8,
        group_count: 20,
        cell_size_mm: 2_000,
        blocker_cell_count: 8,
        map_checksum: MAPDATA_V0_LOCAL_FIXTURE_CHECKSUM,
    });
    v
}

/// The integer square root of `n`, rounded down.
pub fn isqrt_usize(n: usize) -> (r: usize)
    ensures
        is_floor_sqrt(n as int, r as int),
{
    let mut lo: u64 = 0;
    let mut hi: u64 = 0x1_0000_0000;
    let v = n as u64;
    assert(hi * hi > u64::MAX) by (nonlinear_arith)
        requires
            hi == 0x1_0000_0000u64,
    ;
    while hi - lo > 1
        invariant
            lo < hi <= 0x1_0000_0000,
            lo * lo <= v,
            v < hi * hi,
        decreases hi - lo,
    {
        let mid = lo + (hi - lo) / 2;
        assert(mid * mid <= 0xffff_ffff * 0xffff_ffff) by (nonlinear_arith)
            requires
                mid <= 0xffff_ffff,
        ;
        if mid * mid <= v {
            lo = mid;
        } else {
            hi = mid;
        }
    }
    assert(lo <= n) by (nonlinear_arith)
        requires
            lo * lo <= n,
            0 <= lo,
    ;
    lo as usize
}

/// The most collision samples a flow-field scenario probes per tick.
pub const FLOW_FIELD_COLLISION_SAMPLE_COUNT: usize = 16;

const FLOW_FIELD_COLLISION_RADIUS_MM: i32 = 300;

const FLOW_FIELD_COLLISION_RESOLUTION_ITERATIONS: usize = 1;

/// Scenario sizes the runner accepts: entity counts and tick counts that keep every position,
/// lane and counter of the run inside its integer type.
pub open spec fn scenario_in_range(s: MovementScaleScenario) -> bool {
    &&& s.entity_count <= 10_000_000
    &&& s.tick_count <= 1_000_000_000
    &&& s.blocker_cell_count <= 10_000_000
    &&& s.cell_size_mm >= 1
    &&& (s.option_family == MovementOptionFamily::FlowFieldObjective ==> s.cell_size_mm >= 2)
}

#[derive(Debug, Clone, Copy, PartialEq, Eq)]
pub struct MovementScaleRun {
    pub scenario_id: MovementScaleScenarioId,
    pub option_family: MovementOptionFamily,
    pub entity_count: usize,
    pub tick_count: u64,
    pub final_tick: u64,
    pub movement_queries: u64,
    pub correction_count: u64,
    pub occupied_cells: usize,
    pub blocker_cell_count: usize,
    pub flow_field_build_count: u64,
    pub flow_field_cache_hit_count: u64,
    pub flow_field_cache_request_count: u64,
    pub flow_field_cache_eviction_count: u64,
    pub flow_field_cache_entry_count: usize,
    pub flow_field_query_count: u64,
    pub flow_field_visited_cell_count: usize,
    pub flow_field_blocked_cell_count: usize,
    pub flow_field_unreachable_count: u64,
    pub flow_field_collision_admission_check_count: u64,
    pub flow_field_collision_admission_accepted_count: u64,
    pub flow_field_collision_admission_rejected_count: u64,
    pub flow_field_collision_resolved_admission_check_count: u64,
    pub flow_field_collision_resolved_admission_accepted_after_resolution_count: u64,
    pub flow_field_collision_resolved_admission_rejected_count: u64,
    pub flow_field_collision_resolved_admission_iterations_run_count: u64,
    pub flow_field_collision_resolved_admission_correction_count: u64,
    pub flow_field_collision_resolved_admission_correction_abs_mm_total: u64,
    pub flow_field_collision_resolved_admission_max_correction_abs_mm: u32,
    pub flow_field_collision_movement_probe_count: u64,
    pub flow_field_collision_movement_probe_corrected_count: u64,
    pub flow_field_collision_movement_probe_blocked_count: u64,
    pub flow_field_collision_movement_applied_delta_count: u64,
    pub flow_field_collision_movement_corrected_delta_count: u64,
    pub flow_field_collision_movement_blocked_delta_count: u64,
    pub flow_field_collision_apply_physics_candidate_count: u64,
    pub flow_field_collision_apply_physics_initial_contact_count: u64,
    pub flow_field_collision_apply_physics_iterations_run_count: u64,
    pub flow_field_collision_apply_physics_correction_count: u64,
    pub flow_field_collision_apply_physics_correction_abs_mm_total: u64,
    pub flow_field_collision_apply_physics_max_correction_abs_mm: u32,
    pub flow_field_collision_apply_physics_final_contact_count: u64,
    pub flow_field_collision_apply_physics_synced_position_count: u64,
    pub flow_field_static_obstacle_body_count: usize,
    pub map_checksum: &'static str,
}

/// The width of a scenario's starting lattice: the integer square root of its entity count,
/// at least 1.
pub open spec fn lattice_width(entity_count: int) -> int {
    let root = floor_sqrt(entity_count);
    if root > 1 {
        root
    } else {
        1
    }
}

/// The flow-field bounds of a scenario: from cell -4 on both axes to half the lattice's width
/// and height plus 8.
pub open spec fn scenario_flow_bounds(scenario: MovementScaleScenario) -> FlowFieldBounds {
    let w = lattice_width(scenario.entity_count as int);
    let h = (scenario.entity_count + w - 1) / w;
    FlowFieldBounds { min_x: -4i32, min_y: -4i32, max_x: (w / 2 + 8) as i32, max_y: (h / 2 + 8) as i32 }
}

/// The flow-field bounds of a scenario: the entity block in 2 m cells plus a margin.
fn flow_field_bounds_for(scenario: MovementScaleScenario) -> (r: FlowFieldBounds)
    requires
        scenario_in_range(scenario),
    ensures
        r == scenario_flow_bounds(scenario),
        r.min_x == -4,
        r.min_y == -4,
        8 <= r.max_x <= 10_000,
        8 <= r.max_y <= 10_000_000,
{
    let root = isqrt_usize(scenario.entity_count);
    proof {
        lemma_floor_sqrt(scenario.entity_count as int, root as int);
    }
    assert(root <= 3163) by (nonlinear_arith)
        requires
            root * root <= scenario.entity_count,
            scenario.entity_count <= 10_000_000,
            root >= 0,
    ;
    let width: usize = if root > 1 { root } else { 1 };
    let height: usize = (scenario.entity_count + width - 1) / width;
    assert(height <= 10_000_000) by (nonlinear_arith)
        requires
            height as int == (scenario.entity_count + width - 1) as int / (width as int),
            width >= 1,
            scenario.entity_count <= 10_000_000,
    ;
    let w = width as i32;
    let h = height as i32;
    FlowFieldBounds { min_x: -4, min_y: -4, max_x: w / 2 + 8, max_y: h / 2 + 8 }
}

/// The goal of a scenario's flow field: two cells in from the far corner.
fn flow_field_goal_for(scenario: MovementScaleScenario) -> (r: SpatialCell)
    requires
        scenario_in_range(scenario),
    ensures
        r.x == scenario_flow_bounds(scenario).max_x - 2,
        r.y == scenario_flow_bounds(scenario).max_y - 2,
{
    let bounds = flow_field_bounds_for(scenario);
    SpatialCell { x: bounds.max_x - 2, y: bounds.max_y - 2 }
}

/// Blocker `i` of a scenario's block: eight to a row, from twelve cells in from the far
/// corner of the bounds.
pub open spec fn blocker_cell(b: FlowFieldBounds, i: int) -> SpatialCell {
    SpatialCell { x: (b.max_x - 12 + i % 8) as i32, y: (b.max_y - 12 + i / 8) as i32 }
}

/// Every key is the key of some cell.
proof fn lemma_key_cell(k: u64) -> (c: SpatialCell)
    ensures
        cell_key(c) == k as int,
{
    let hi = k as int / 0x1_0000_0000;
    let lo = k as int % 0x1_0000_0000;
    assert(k as int == hi * 0x1_0000_0000 + lo && 0 <= lo < 0x1_0000_0000 && 0 <= hi < 0x1_0000_0000) by (nonlinear_arith)
        requires
            hi == k as int / 0x1_0000_0000,
            lo == k as int % 0x1_0000_0000,
            0 <= k as int <= u64::MAX,
    ;
    let c = SpatialCell { x: (hi - 0x8000_0000) as i32, y: (lo - 0x8000_0000) as i32 };
    assert(c.x == hi - 0x8000_0000 && c.y == lo - 0x8000_0000);
    c
}

/// The keys of the blocked cells inside a scenario's bounds: with a block of `count` cells
/// starting twelve cells in, the first 104 of them (thirteen rows) lie inside.
proof fn lemma_blocked_keys_len(b: FlowFieldBounds, goal: SpatialCell, count: int, keys: Seq<u64>)
    requires
        b.min_x == -4,
        b.min_y == -4,
        8 <= b.max_x <= 10_000,
        8 <= b.max_y <= 10_000_000,
        0 <= count <= 10_000_000,
        goal.x == b.max_x - 2,
        strictly_increasing(keys),
        forall|c: SpatialCell| #[trigger] keys.contains(cell_key(c) as u64) <==> ((exists|i: int|
            0 <= i < count && c == blocker_cell(b, i) && c != goal) && in_bounds(b, c.x as int, c.y as int)),
    ensures
        keys.len() == (if count < 104 { count } else { 104 }),
{
    let m = if count < 104 { count } else { 104 };
    let s = Seq::new(m as nat, |i: int| cell_key(blocker_cell(b, i)) as u64);
    assert forall|i: int| 0 <= i < m implies keys.contains(cell_key(blocker_cell(b, i)) as u64) by {
        let c = blocker_cell(b, i);
        assert(i / 8 <= 12);
        assert(c != goal);
        assert(in_bounds(b, c.x as int, c.y as int));
    }
    assert forall|k: u64| keys.contains(k) implies s.contains(k) by {
        let c = lemma_key_cell(k);
        lemma_cell_key(c, c);
        assert(cell_key(c) as u64 == k);
        let i = choose|i: int| 0 <= i < count && c == blocker_cell(b, i) && c != goal;
        assert(i / 8 <= 12);
        assert(i < m);
        assert(s[i] == k);
    }
    assert(s.no_duplicates()) by {
        assert forall|p: int, q: int| 0 <= p < s.len() && 0 <= q < s.len() && p != q implies s[p] != s[q] by {
            lemma_cell_key(blocker_cell(b, p), blocker_cell(b, q));
            if blocker_cell(b, p) == blocker_cell(b, q) {
                assert(p % 8 == q % 8 && p / 8 == q / 8);
                assert(p == 8 * (p / 8) + p % 8) by (nonlinear_arith);
                assert(q == 8 * (q / 8) + q % 8) by (nonlinear_arith);
            }
        }
    }
    assert(keys.no_duplicates()) by {
        assert forall|p: int, q: int| 0 <= p < keys.len() && 0 <= q < keys.len() && p != q implies keys[p] != keys[q] by {
            if p < q {
                assert(keys[p] < keys[q]);
            } else {
                assert(keys[q] < keys[p]);
            }
        }
    }
    assert(keys.to_set() =~= s.to_set()) by {
        assert forall|k: u64| keys.to_set().contains(k) <==> s.to_set().contains(k) by {
            if s.contains(k) {
                let i = choose|i: int| 0 <= i < s.len() && s[i] == k;
                assert(keys.contains(cell_key(blocker_cell(b, i)) as u64));
            }
        }
    }
    keys.unique_seq_to_set();
    s.unique_seq_to_set();
}

/// `keys` are the sorted keys of the first `count` blocker cells other than the goal that lie
/// inside the bounds.
pub open spec fn blocked_membership(b: FlowFieldBounds, goal: SpatialCell, count: int, keys: Seq<u64>) -> bool {
    &&& strictly_increasing(keys)
    &&& forall|c: SpatialCell| #[trigger] keys.contains(cell_key(c) as u64) <==> ((exists|i: int|
        0 <= i < count && c == blocker_cell(b, i) && c != goal) && in_bounds(b, c.x as int, c.y as int))
}

/// The goal cell of a scenario's flow field.
pub open spec fn scenario_goal(scenario: MovementScaleScenario) -> SpatialCell {
    SpatialCell {
        x: (scenario_flow_bounds(scenario).max_x - 2) as i32,
        y: (scenario_flow_bounds(scenario).max_y - 2) as i32,
    }
}

/// The sorted keys of a scenario's blocked cells inside its flow-field bounds.
pub open spec fn scenario_blocked_keys(scenario: MovementScaleScenario) -> Seq<u64> {
    choose|keys: Seq<u64>|
        blocked_membership(scenario_flow_bounds(scenario), scenario_goal(scenario), scenario.blocker_cell_count as int, keys)
}

/// The cells from which a flow field reaches its goal.
pub open spec fn reachable_cells(b: FlowFieldBounds, blocked: Seq<u64>, goal: SpatialCell) -> Set<SpatialCell> {
    Set::new(|c: SpatialCell| reachable(b, blocked, goal, c))
}

/// A flow field stores each cell that reaches its goal once, so it stores as many cells as
/// reach the goal.
proof fn lemma_visited_count(f: FlowFieldMap)
    requires
        f.wf(),
    ensures
        reachable_cells(f.spec_bounds(), f.spec_blocked(), f.spec_goal()).finite(),
        f.spec_cells().len() == reachable_cells(f.spec_bounds(), f.spec_blocked(), f.spec_goal()).len(),
{
    let cells = f.cells@;
    let keys = f.keys@;
    let set = reachable_cells(f.spec_bounds(), f.spec_blocked(), f.spec_goal());
    assert(cells.no_duplicates()) by {
        assert forall|p: int, q: int| 0 <= p < cells.len() && 0 <= q < cells.len() && p != q implies cells[p] != cells[q] by {
            assert(keys[p] == cell_key(cells[p]) as u64);
            assert(keys[q] == cell_key(cells[q]) as u64);
            lemma_cell_key(cells[p], cells[q]);
            lemma_cell_key(cells[p], cells[p]);
            lemma_cell_key(cells[q], cells[q]);
            if p < q {
                assert(keys[p] < keys[q]);
            } else {
                assert(keys[q] < keys[p]);
            }
        }
    }
    assert(cells.to_set() =~= set) by {
        assert forall|c: SpatialCell| cells.to_set().contains(c) <==> set.contains(c) by {
            if cells.contains(c) {
                let i = choose|i: int| 0 <= i < cells.len() && cells[i] == c;
                assert(keys[i] == cell_key(cells[i]) as u64);
            }
            if set.contains(c) {
                assert(reachable(f.spec_bounds(), f.spec_blocked(), f.spec_goal(), c));
                assert(keys.contains(cell_key(c) as u64));
                let i = choose|i: int| 0 <= i < keys.len() && keys[i] == cell_key(c) as u64;
                assert(keys[i] == cell_key(cells[i]) as u64);
                lemma_cell_key(cells[i], c);
                lemma_cell_key(c, c);
                lemma_cell_key(cells[i], cells[i]);
                assert(cells[i] == c);
            }
        }
    }
    cells.unique_seq_to_set();
}

/// The blocked cells of a scenario: a block eight cells wide near the goal, the goal left open.
fn flow_field_blockers_for(scenario: MovementScaleScenario, goal: SpatialCell, bounds: FlowFieldBounds) -> (r: Vec<SpatialCell>)
    requires
        scenario_in_range(scenario),
        8 <= bounds.max_x <= 10_000,
        8 <= bounds.max_y <= 10_000_000,
    ensures
        !r@.contains(goal),
        r@.len() <= scenario.blocker_cell_count,
        forall|c: SpatialCell| #[trigger] r@.contains(c) <==> exists|i: int|
            0 <= i < scenario.blocker_cell_count && c == blocker_cell(bounds, i) && c != goal,
{
    let mut cells: Vec<SpatialCell> = Vec::new();
    let mut index: usize = 0;
    while index < scenario.blocker_cell_count
        invariant
            scenario_in_range(scenario),
            8 <= bounds.max_x <= 10_000,
            8 <= bounds.max_y <= 10_000_000,
            index <= scenario.blocker_cell_count,
            !cells@.contains(goal),
            cells@.len() <= index,
            forall|c: SpatialCell| #[trigger] cells@.contains(c) <==> exists|i: int|
                0 <= i < index && c == blocker_cell(bounds, i) && c != goal,
        decreases scenario.blocker_cell_count - index,
    {
        let i = index as i32;
        let cell = SpatialCell { x: bounds.max_x - 12 + (i % 8), y: bounds.max_y - 12 + (i / 8) };
        let ghost before = cells@;
        proof {
            assert(cell == blocker_cell(bounds, index as int));
        }
        if cell != goal {
            cells.push(cell);
            proof {
                if cells@.contains(goal) {
                    let j = choose|j: int| 0 <= j < cells@.len() && cells@[j] == goal;
                    assert(before[j] == goal);
                }
            }
        }
        proof {
            assert forall|c: SpatialCell| #[trigger] cells@.contains(c) <==> exists|i: int|
                0 <= i < index + 1 && c == blocker_cell(bounds, i) && c != goal by {
                if cells@.contains(c) && c != cell {
                    let j = choose|j: int| 0 <= j < cells@.len() && cells@[j] == c;
                    assert(before[j] == c);
                    assert(before.contains(c));
                }
                if exists|i: int| 0 <= i < index + 1 && c == blocker_cell(bounds, i) && c != goal {
                    let i = choose|i: int| 0 <= i < index + 1 && c == blocker_cell(bounds, i) && c != goal;
                    if i < index {
                        assert(before.contains(c));
                        let j = choose|j: int| 0 <= j < before.len() && before[j] == c;
                        assert(cells@[j] == c);
                    } else {
                        assert(cells@[cells@.len() - 1] == c);
                    }
                }
            }
        }
        index += 1;
    }
    cells
}

/// The entity index of collision-sample slot `i` of `n` entities: slots 0 to 7 are the
/// first entities, slots 8 to 15 are spread evenly, the last one kept inside the entities.
pub open spec fn sample_slot(n: int, i: int) -> int {
    if i < 8 {
        i
    } else {
        let spaced = (i + 1) * n / 16;
        if spaced < n - 1 {
            spaced
        } else {
            n - 1
        }
    }
}

/// The collision-sample entity indices of `n` entities: the slots that exist (a first-eight
/// slot only below `n`), each index once.
pub open spec fn sample_set(n: int) -> Set<u64> {
    Set::new(|k: u64| n > 0 && exists|i: int| 0 <= i < 16 && (i >= 8 || i < n) && k == sample_slot(n, i))
}

/// How many distinct entities a flow-field scenario probes on each tick.
pub open spec fn sample_count(n: int) -> int {
    sample_set(n).len() as int
}

/// With at least 32 entities the sixteen collision-sample slots are all different entities.
pub proof fn lemma_sample_count_full(n: int)
    requires
        32 <= n <= 10_000_000,
    ensures
        sample_count(n) == 16,
{
    let slots = Seq::new(16, |i: int| sample_slot(n, i) as u64);
    assert forall|i: int| 8 <= i < 15 implies #[trigger] sample_slot(n, i) == (i + 1) * n / 16 by {
        assert((i + 1) * n / 16 <= 15 * n / 16) by (nonlinear_arith)
            requires
                8 <= i < 15,
                n >= 32,
        ;
        assert(15 * n / 16 < n - 1) by (nonlinear_arith)
            requires
                n >= 32,
        ;
    }
    assert(16 * n / 16 == n) by (nonlinear_arith);
    assert(sample_slot(n, 15) == n - 1);
    assert(9 * n / 16 >= 18) by (nonlinear_arith)
        requires
            n >= 32,
    ;
    assert forall|i: int, j: int| 0 <= i < j < 16 implies sample_slot(n, i) < sample_slot(n, j) by {
        if j >= 8 {
            if j < 15 {
                assert(sample_slot(n, j) == (j + 1) * n / 16);
                assert((j + 1) * n / 16 >= 9 * n / 16) by (nonlinear_arith)
                    requires
                        8 <= j,
                        n >= 32,
                ;
            }
            if i >= 8 {
                assert(sample_slot(n, i) == (i + 1) * n / 16);
                if j < 15 {
                    assert((i + 1) * n / 16 < (j + 1) * n / 16) by (nonlinear_arith)
                        requires
                            8 <= i < j,
                            n >= 32,
                    ;
                } else {
                    assert((i + 1) * n / 16 <= 15 * n / 16) by (nonlinear_arith)
                        requires
                            8 <= i < 15,
                            n >= 32,
                    ;
                    assert(15 * n / 16 < n - 1) by (nonlinear_arith)
                        requires
                            n >= 32,
                    ;
                }
            }
        }
    }
    assert forall|i: int| 0 <= i < 16 implies 0 <= #[trigger] sample_slot(n, i) < n by {
        if 8 <= i < 15 {
            assert((i + 1) * n / 16 < n) by (nonlinear_arith)
                requires
                    8 <= i < 15,
                    n >= 32,
            ;
        }
    }
    assert(slots.no_duplicates()) by {
        assert forall|a: int, b: int| 0 <= a < slots.len() && 0 <= b < slots.len() && a != b implies slots[a] != slots[b] by {
            if a < b {
                assert(sample_slot(n, a) < sample_slot(n, b));
            } else {
                assert(sample_slot(n, b) < sample_slot(n, a));
            }
        }
    }
    assert(slots.to_set() =~= sample_set(n)) by {
        assert forall|k: u64| slots.to_set().contains(k) <==> sample_set(n).contains(k) by {
            if sample_set(n).contains(k) {
                let i = choose|i: int| 0 <= i < 16 && (i >= 8 || i < n) && k == sample_slot(n, i);
                assert(slots[i] == k);
            }
            if slots.to_set().contains(k) {
                let i = choose|i: int| 0 <= i < slots.len() && slots[i] == k;
                assert(k == sample_slot(n, i));
            }
        }
    }
    slots.unique_seq_to_set();
}

/// How many of a list of entity indices lie below `e`.
pub open spec fn samples_below(s: Seq<u64>, e: int) -> int
    decreases s.len(),
{
    if s.len() == 0 {
        0
    } else {
        samples_below(s.drop_last(), e) + (if (s.last() as int) < e { 1int } else { 0int })
    }
}

/// Moving the limit up by one counts the index at the old limit, if listed.
proof fn lemma_samples_below_step(s: Seq<u64>, e: int)
    requires
        strictly_increasing(s),
        0 <= e < u64::MAX,
    ensures
        samples_below(s, e + 1) == samples_below(s, e) + (if s.contains(e as u64) { 1int } else { 0int }),
    decreases s.len(),
{
    if s.len() > 0 {
        let t = s.drop_last();
        assert(strictly_increasing(t));
        lemma_samples_below_step(t, e);
        assert(s =~= t.push(s.last()));
        if t.contains(e as u64) {
            let j = choose|j: int| 0 <= j < t.len() && t[j] == e as u64;
            assert(s[j] < s[s.len() - 1]);
        }
        if s.contains(e as u64) && s.last() != e as u64 {
            let j = choose|j: int| 0 <= j < s.len() && s[j] == e as u64;
            assert(t[j] == e as u64);
        }
    }
}

/// At most all listed indices lie below any limit.
proof fn lemma_samples_below_len(s: Seq<u64>, e: int)
    ensures
        0 <= samples_below(s, e) <= s.len(),
    decreases s.len(),
{
    if s.len() > 0 {
        lemma_samples_below_len(s.drop_last(), e);
    }
}

/// No index lies below zero.
proof fn lemma_samples_below_zero(s: Seq<u64>)
    ensures
        samples_below(s, 0) == 0,
    decreases s.len(),
{
    if s.len() > 0 {
        lemma_samples_below_zero(s.drop_last());
    }
}

/// When every listed index lies below `n`, all of them are counted.
proof fn lemma_samples_below_all(s: Seq<u64>, n: int)
    requires
        forall|i: int| 0 <= i < s.len() ==> #[trigger] s[i] < n,
    ensures
        samples_below(s, n) == s.len(),
    decreases s.len(),
{
    if s.len() > 0 {
        let t = s.drop_last();
        assert forall|i: int| 0 <= i < t.len() implies #[trigger] t[i] < n by {
            assert(t[i] == s[i]);
        }
        lemma_samples_below_all(t, n);
    }
}

/// The collision-sample entity indices of a scenario: the first eight and eight spread evenly.
fn flow_field_collision_sample_indices(entity_count: usize) -> (r: Vec<u64>)
    requires
        entity_count <= 10_000_000,
    ensures
        strictly_increasing(r@),
        forall|i: int| 0 <= i < r@.len() ==> #[trigger] r@[i] < entity_count,
        r@.len() <= FLOW_FIELD_COLLISION_SAMPLE_COUNT,
        r@.to_set() == sample_set(entity_count as int),
        r@.len() == sample_count(entity_count as int),
{
    let mut keys: Vec<u64> = Vec::new();
    if entity_count == 0 {
        proof {
            assert(keys@.to_set() =~= sample_set(entity_count as int));
            keys@.unique_seq_to_set();
        }
        return keys;
    }
    let first = if entity_count < 8 { entity_count } else { 8 };
    let mut index: usize = 0;
    while index < 16
        invariant
            entity_count <= 10_000_000,
            entity_count > 0,
            first <= 8,
            first <= entity_count,
            index <= 16,
            strictly_increasing(keys@),
            forall|i: int| 0 <= i < keys@.len() ==> #[trigger] keys@[i] < entity_count,
            keys@.len() <= index,
            first == (if entity_count < 8 { entity_count } else { 8 }),
            forall|k: u64| #[trigger] keys@.contains(k) <==> exists|i: int|
                0 <= i < index && (i >= 8 || i < entity_count) && k == sample_slot(entity_count as int, i),
        decreases 16 - index,
    {
        let candidate: Option<usize> = if index < 8 {
            if index < first { Some(index) } else { None }
        } else {
            assert((index + 1) * entity_count <= 160_000_000) by (nonlinear_arith)
                requires
                    index < 16,
                    entity_count <= 10_000_000,
            ;
            let spaced = (index + 1) * entity_count / 16;
            Some(if spaced < entity_count - 1 { spaced } else { entity_count - 1 })
        };
        match candidate {
            Some(c) => {
                let ghost before = keys@;
                insert_key(&mut keys, c as u64);
                proof {
                    assert forall|i: int| 0 <= i < keys@.len() implies #[trigger] keys@[i] < entity_count by {
                        assert(keys@.contains(keys@[i]));
                        if keys@[i] != c as u64 {
                            assert(before.contains(keys@[i]));
                        }
                    }
                    assert(c as int == sample_slot(entity_count as int, index as int));
                    assert forall|k: u64| #[trigger] keys@.contains(k) <==> exists|i: int|
                        0 <= i < index + 1 && (i >= 8 || i < entity_count) && k == sample_slot(entity_count as int, i) by {
                        if keys@.contains(k) && k != c as u64 {
                            assert(before.contains(k));
                        }
                        if exists|i: int| 0 <= i < index + 1 && (i >= 8 || i < entity_count) && k == sample_slot(entity_count as int, i) {
                            let i = choose|i: int| 0 <= i < index + 1 && (i >= 8 || i < entity_count) && k == sample_slot(entity_count as int, i);
                            if i < index {
                                assert(before.contains(k));
                            }
                        }
                    }
                }
            },
            None => {
                proof {
                    assert forall|k: u64| #[trigger] keys@.contains(k) <==> exists|i: int|
                        0 <= i < index + 1 && (i >= 8 || i < entity_count) && k == sample_slot(entity_count as int, i) by {
                        if exists|i: int| 0 <= i < index + 1 && (i >= 8 || i < entity_count) && k == sample_slot(entity_count as int, i) {
                            let i = choose|i: int| 0 <= i < index + 1 && (i >= 8 || i < entity_count) && k == sample_slot(entity_count as int, i);
                            assert(i < index);
                        }
                    }
                }
            },
        }
        index += 1;
    }
    proof {
        assert(keys@.to_set() =~= sample_set(entity_count as int)) by {
            assert forall|k: u64| keys@.to_set().contains(k) <==> sample_set(entity_count as int).contains(k) by {
                assert(keys@.to_set().contains(k) <==> keys@.contains(k));
            }
        }
        assert(keys@.no_duplicates()) by {
            assert forall|a: int, b: int| 0 <= a < keys@.len() && 0 <= b < keys@.len() && a != b implies keys@[a] != keys@[b] by {
                if a < b {
                    assert(keys@[a] < keys@[b]);
                } else {
                    assert(keys@[b] < keys@[a]);
                }
            }
        }
        keys@.unique_seq_to_set();
    }
    keys
}

/// The centre of a cell: its corner, saturated into `i32`, plus half the cell size, saturating
/// again.
pub open spec fn cell_center(cell: SpatialCell, cell_size_mm: int) -> WorldPosition {
    WorldPosition {
        x_mm: clamp_i32(clamp_i32(cell.x * cell_size_mm) + cell_size_mm / 2) as i32,
        y_mm: clamp_i32(clamp_i32(cell.y * cell_size_mm) + cell_size_mm / 2) as i32,
    }
}

/// The centre of a cell, saturating in `i32`.
fn cell_center_position(cell: SpatialCell, cell_size_mm: i32) -> (r: WorldPosition)
    requires
        cell_size_mm > 0,
    ensures
        r == cell_center(cell, cell_size_mm as int),
{
    let half = cell_size_mm / 2;
    let ghost cx: int = cell.x as int;
    let ghost cy: int = cell.y as int;
    let ghost cs: int = cell_size_mm as int;
    assert(-0x8000_0000 * 0x7fff_ffff <= cx * cs <= 0x7fff_ffff * 0x7fff_ffff) by (nonlinear_arith)
        requires
            0 < cs <= 0x7fff_ffff,
            -0x8000_0000 <= cx <= 0x7fff_ffff,
    ;
    assert(-0x8000_0000 * 0x7fff_ffff <= cy * cs <= 0x7fff_ffff * 0x7fff_ffff) by (nonlinear_arith)
        requires
            0 < cs <= 0x7fff_ffff,
            -0x8000_0000 <= cy <= 0x7fff_ffff,
    ;
    let x = (cell.x as i64) * (cell_size_mm as i64);
    let y = (cell.y as i64) * (cell_size_mm as i64);
    let cx = crate::arith::clamp_i64_to_i32(x);
    let cy = crate::arith::clamp_i64_to_i32(y);
    WorldPosition { x_mm: sat_add_i32(cx, half), y_mm: sat_add_i32(cy, half) }
}

/// The collision world of a flow-field tick: one unit body per sampled entity and one static
/// obstacle per blocked cell.
fn flow_field_collision_world_for(
    scenario: MovementScaleScenario,
    entities: &EntityColumns,
    sample_indices: &Vec<u64>,
    blockers: &Vec<SpatialCell>,
) -> (r: CollisionWorld)
    requires
        scenario_in_range(scenario),
        scenario.option_family == MovementOptionFamily::FlowFieldObjective,
        entities.wf(),
        blockers@.len() <= 10_000_000,
    ensures
        r.wf(),
        r.spec_cell_size() == scenario.cell_size_mm,
{
    let mut bodies: Vec<CollisionBody> = Vec::new();
    let mut p: usize = 0;
    while p < sample_indices.len()
        invariant
            entities.wf(),
            scenario.cell_size_mm >= 2,
            p <= sample_indices@.len(),
            forall|i: int| 0 <= i < bodies@.len() ==> #[trigger] bodies@[i].radius_mm > 0,
        decreases sample_indices@.len() - p,
    {
        let index = sample_indices[p];
        if index < usize::MAX as u64 {
            match entities.position(index as usize) {
                Some(position) => {
                    bodies.push(CollisionBody {
                        entity_id: EntityId(index + 1),
                        kind: CollisionBodyKind::Unit,
                        position,
                        radius_mm: FLOW_FIELD_COLLISION_RADIUS_MM,
                    });
                },
                None => {},
            }
        }
        p += 1;
    }
    let mut q: usize = 0;
    while q < blockers.len()
        invariant
            scenario.cell_size_mm >= 2,
            blockers@.len() <= 10_000_000,
            q <= blockers@.len(),
            forall|i: int| 0 <= i < bodies@.len() ==> #[trigger] bodies@[i].radius_mm > 0,
        decreases blockers@.len() - q,
    {
        bodies.push(CollisionBody {
            entity_id: EntityId(800_000 + q as u64),
            kind: CollisionBodyKind::StaticObstacle,
            position: cell_center_position(blockers[q], scenario.cell_size_mm),
            radius_mm: scenario.cell_size_mm / 2,
        });
        q += 1;
    }
    match CollisionWorld::with_bodies(scenario.cell_size_mm, bodies) {
        Ok(world) => world,
        Err(_) => {
            assert(false);
            CollisionWorld::new(scenario.cell_size_mm).unwrap()
        },
    }
}

/// Moves each sampled entity to where the collision world holds its body and returns how many
/// moved.
fn sync_flow_field_collision_sample_positions(world: &CollisionWorld, entities: &mut EntityColumns, sample_indices: &Vec<u64>) -> (r: u64)
    requires
        world.wf(),
        old(entities).wf(),
        sample_indices@.len() <= FLOW_FIELD_COLLISION_SAMPLE_COUNT,
    ensures
        final(entities).wf(),
        final(entities)@.len() == old(entities)@.len(),
        r <= FLOW_FIELD_COLLISION_SAMPLE_COUNT,
{
    let mut synced: u64 = 0;
    let mut p: usize = 0;
    while p < sample_indices.len()
        invariant
            world.wf(),
            entities.wf(),
            entities@.len() == old(entities)@.len(),
            sample_indices@.len() <= FLOW_FIELD_COLLISION_SAMPLE_COUNT,
            p <= sample_indices@.len(),
            synced <= p,
        decreases sample_indices@.len() - p,
    {
        let index = sample_indices[p];
        if index < usize::MAX as u64 && index < u64::MAX {
            let i = index as usize;
            match entities.position(i) {
                Some(position) => {
                    match world.body(EntityId(index + 1)) {
                        Some(body) => {
                            if position != body.position {
                                let delta = MovementDelta {
                                    dx_mm: sat_sub_i32(body.position.x_mm, position.x_mm),
                                    dy_mm: sat_sub_i32(body.position.y_mm, position.y_mm),
                                };
                                if entities.apply_movement_stub(i, delta) {
                                    synced = synced + 1;
                                }
                            }
                        },
                        None => {},
                    }
                },
                None => {},
            }
        }
        p += 1;
    }
    synced
}

/// The starting position of entity `index` on a lattice `width` wide: column and row 500 mm
/// apart, shifted 100 mm along x by the group modulo 5 and along y by the group divided by 5.
pub open spec fn lattice_position(index: int, width: int, group: int) -> WorldPosition {
    WorldPosition {
        x_mm: ((index % width) * 500 + (group % 5) * 100) as i32,
        y_mm: ((index / width) * 500 + (group / 5) * 100) as i32,
    }
}

/// The starting position of entity `index`: a 0.5 m lattice `width` wide, offset by group.
fn initial_position(index: usize, width: usize, group: usize) -> (r: WorldPosition)
    requires
        1 <= width <= 3163,
        index <= 10_000_000,
        index / width <= 10_000,
        group <= 10_000_000,
    ensures
        r == lattice_position(index as int, width as int, group as int),
{
    let x = (index % width) as i32;
    let y = (index / width) as i32;
    let g = group as i32;
    WorldPosition { x_mm: x * 500 + (g % 5) * 100, y_mm: y * 500 + (g / 5) * 100 }
}

/// The entities of a scenario on their starting lattice.
/// The group count of a scenario, at least 1.
pub open spec fn group_lanes(scenario: MovementScaleScenario) -> int {
    if scenario.group_count > 1 {
        scenario.group_count as int
    } else {
        1
    }
}

/// Where entity `i` of a scenario without a flow field stands after `t` ticks: its lattice
/// place, moved by its scripted delta on each tick, saturating in `i32`.
pub open spec fn scripted_position(scenario: MovementScaleScenario, i: int, t: nat) -> WorldPosition
    decreases t,
{
    if t == 0 {
        lattice_position(i, lattice_width(scenario.entity_count as int), i % group_lanes(scenario))
    } else {
        moved_position(scripted_position(scenario, i, (t - 1) as nat), scripted_delta(scenario, i, t - 1))
    }
}

fn build_entities(scenario: MovementScaleScenario) -> (r: EntityColumns)
    requires
        scenario_in_range(scenario),
    ensures
        r.wf(),
        r@.len() == scenario.entity_count,
        forall|i: int| 0 <= i < r@.len() ==> #[trigger] r@[i].position == scripted_position(scenario, i, 0),
{
    let mut entities = EntityColumns::with_capacity(scenario.entity_count);
    let root = isqrt_usize(scenario.entity_count);
    assert(root <= 3163) by (nonlinear_arith)
        requires
            root * root <= scenario.entity_count,
            scenario.entity_count <= 10_000_000,
            root >= 0,
    ;
    let width: usize = if root > 1 { root } else { 1 };
    let groups: usize = if scenario.group_count > 1 { scenario.group_count } else { 1 };
    let kind = scenario.option_family.ordinal() + 1;
    proof {
        lemma_floor_sqrt(scenario.entity_count as int, root as int);
    }
    let mut index: usize = 0;
    while index < scenario.entity_count
        invariant
            scenario_in_range(scenario),
            entities.wf(),
            entities@.len() == index,
            index <= scenario.entity_count,
            1 <= width <= 3163,
            is_floor_sqrt(scenario.entity_count as int, root as int),
            width == (if root > 1 { root } else { 1 }),
            groups >= 1,
            width == lattice_width(scenario.entity_count as int),
            groups == group_lanes(scenario),
            forall|i: int| 0 <= i < index ==> #[trigger] entities@[i].position == scripted_position(scenario, i, 0),
        decreases scenario.entity_count - index,
    {
        let group = index % groups;
        assert(group <= index) by (nonlinear_arith)
            requires
                group == index % groups,
                groups >= 1,
        ;
        assert(index / width <= 10_000) by (nonlinear_arith)
            requires
                index < scenario.entity_count,
                scenario.entity_count < (root + 1) * (root + 1),
                width == (if root > 1 { root } else { 1 }),
                root >= 0,
                width >= 1,
                scenario.entity_count <= 10_000_000,
        ;
        entities.push(EntityState {
            entity_id: EntityId(index as u64 + 1),
            entity_kind: kind,
            faction_id: (group % 4) as u16,
            flags: 0,
            position: initial_position(index, width, group),
            facing_millirad: 0,
            health_q8: 256,
            state_id: 0,
            state_param_q8: #[verifier::truncate] (group as i16),
        });
        index += 1;
    }
    entities
}

/// The movement queries one entity costs under a scenario's option family.
pub open spec fn query_cost(scenario: MovementScaleScenario, entity_index: int) -> int {
    let groups: int = if scenario.group_count > 1 { scenario.group_count as int } else { 1 };
    match scenario.option_family {
        MovementOptionFamily::DirectTargetSteering => 1,
        MovementOptionFamily::GridCorridorPathing => 2 + entity_index % 3,
        MovementOptionFamily::FlowFieldObjective => if entity_index % groups == 0 { 8 } else { 1 },
        MovementOptionFamily::FormationAnchor => if entity_index % 10 == 0 { 3 } else { 1 },
        MovementOptionFamily::LocalAvoidanceLayer => 4 + entity_index % 5,
    }
}

/// The corrections one entity costs on a tick under a scenario's option family.
pub open spec fn correction_cost_of(scenario: MovementScaleScenario, entity_index: int, tick_index: int) -> int {
    let lane = entity_index + tick_index;
    match scenario.option_family {
        MovementOptionFamily::FormationAnchor => if lane % 7 == 0 { 1 } else { 0 },
        MovementOptionFamily::LocalAvoidanceLayer => if lane % 5 == 0 { 1 } else { 0 },
        _ => if scenario.blocker_cell_count > 0 && entity_index % 97 == 0 { 1 } else { 0 },
    }
}

/// The movement queries of the first `k` entities on one tick.
pub open spec fn query_row(scenario: MovementScaleScenario, k: nat) -> int
    decreases k,
{
    if k == 0 {
        0
    } else {
        query_row(scenario, (k - 1) as nat) + query_cost(scenario, k - 1)
    }
}

/// The corrections of the first `k` entities on tick `t`.
pub open spec fn correction_row(scenario: MovementScaleScenario, t: int, k: nat) -> int
    decreases k,
{
    if k == 0 {
        0
    } else {
        correction_row(scenario, t, (k - 1) as nat) + correction_cost_of(scenario, k - 1, t)
    }
}

/// The corrections of all entities over the first `t` ticks.
pub open spec fn correction_upto(scenario: MovementScaleScenario, t: nat) -> int
    decreases t,
{
    if t == 0 {
        0
    } else {
        correction_upto(scenario, (t - 1) as nat) + correction_row(scenario, t - 1, scenario.entity_count as nat)
    }
}

/// Costs add up to non-negative totals.
proof fn lemma_costs_nonneg(scenario: MovementScaleScenario, t: nat, k: nat)
    ensures
        query_row(scenario, k) >= 0,
        correction_row(scenario, t as int, k) >= 0,
        correction_upto(scenario, t) >= 0,
    decreases t, k,
{
    if k > 0 {
        lemma_costs_nonneg(scenario, t, (k - 1) as nat);
    }
    if t > 0 {
        lemma_costs_nonneg(scenario, (t - 1) as nat, scenario.entity_count as nat);
        lemma_costs_nonneg(scenario, (t - 1) as nat, 0);
    }
}

/// The movement queries one entity costs under a scenario's option family.
fn movement_query_cost(scenario: MovementScaleScenario, entity_index: usize) -> (r: u64)
    ensures
        r <= 12,
        r == query_cost(scenario, entity_index as int),
{
    let groups: usize = if scenario.group_count > 1 { scenario.group_count } else { 1 };
    match scenario.option_family {
        MovementOptionFamily::DirectTargetSteering => 1,
        MovementOptionFamily::GridCorridorPathing => 2 + (entity_index % 3) as u64,
        MovementOptionFamily::FlowFieldObjective => if entity_index % groups == 0 { 8 } else { 1 },
        MovementOptionFamily::FormationAnchor => if entity_index % 10 == 0 { 3 } else { 1 },
        MovementOptionFamily::LocalAvoidanceLayer => 4 + (entity_index % 5) as u64,
    }
}

/// The corrections one entity costs on a tick under a scenario's option family.
fn correction_cost(scenario: MovementScaleScenario, entity_index: usize, tick_index: u64) -> (r: u64)
    requires
        entity_index <= 10_000_000,
        tick_index <= 1_000_000_000,
    ensures
        r <= 1,
        r == correction_cost_of(scenario, entity_index as int, tick_index as int),
{
    let lane = entity_index as u64 + tick_index;
    match scenario.option_family {
        MovementOptionFamily::FormationAnchor => if lane % 7 == 0 { 1 } else { 0 },
        MovementOptionFamily::LocalAvoidanceLayer => if lane % 5 == 0 { 1 } else { 0 },
        _ => if scenario.blocker_cell_count > 0 && entity_index % 97 == 0 { 1 } else { 0 },
    }
}

/// The scripted movement of an entity on a tick, by the scenario's family, where `lane` is
/// the entity's index modulo the group count (at least 1).
pub open spec fn scripted_delta(scenario: MovementScaleScenario, entity_index: int, tick_index: int) -> MovementDelta {
    let groups: int = if scenario.group_count > 1 { scenario.group_count as int } else { 1 };
    let lane = entity_index % groups;
    match scenario.option_family {
        MovementOptionFamily::DirectTargetSteering => MovementDelta { dx_mm: 20, dy_mm: (lane % 3 - 1) as i32 },
        MovementOptionFamily::GridCorridorPathing => MovementDelta {
            dx_mm: (12 + lane % 4) as i32,
            dy_mm: ((tick_index + lane) % 5 - 2) as i32,
        },
        MovementOptionFamily::FlowFieldObjective => MovementDelta { dx_mm: (8 + tick_index % 3) as i32, dy_mm: (8 - lane % 3) as i32 },
        MovementOptionFamily::FormationAnchor => MovementDelta { dx_mm: (10 + lane % 2) as i32, dy_mm: (entity_index % 10 - 5) as i32 },
        MovementOptionFamily::LocalAvoidanceLayer => MovementDelta {
            dx_mm: (6 + lane % 3) as i32,
            dy_mm: ((entity_index + tick_index) % 7 - 3) as i32,
        },
    }
}

/// The scripted movement of one entity on a tick for the families without a flow field.
fn scenario_delta(scenario: MovementScaleScenario, entity_index: usize, tick_index: u64) -> (r: MovementDelta)
    requires
        entity_index <= 10_000_000,
        tick_index <= 1_000_000_000,
    ensures
        r == scripted_delta(scenario, entity_index as int, tick_index as int),
{
    let groups: usize = if scenario.group_count > 1 { scenario.group_count } else { 1 };
    let lane = entity_index % groups;
    assert(lane <= entity_index) by (nonlinear_arith)
        requires
            lane == entity_index % groups,
            groups >= 1,
    ;
    let group_lane = lane as i32;
    let tick_lane = tick_index as i32;
    match scenario.option_family {
        MovementOptionFamily::DirectTargetSteering => MovementDelta { dx_mm: 20, dy_mm: (group_lane % 3) - 1 },
        MovementOptionFamily::GridCorridorPathing => MovementDelta { dx_mm: 12 + (group_lane % 4), dy_mm: ((tick_lane + group_lane) % 5) - 2 },
        MovementOptionFamily::FlowFieldObjective => MovementDelta { dx_mm: 8 + (tick_lane % 3), dy_mm: 8 - (group_lane % 3) },
        MovementOptionFamily::FormationAnchor => MovementDelta { dx_mm: 10 + (group_lane % 2), dy_mm: (entity_index % 10) as i32 - 5 },
        MovementOptionFamily::LocalAvoidanceLayer => MovementDelta {
            dx_mm: 6 + (group_lane % 3),
            dy_mm: ((entity_index as u64 + tick_index) % 7) as i32 - 3,
        },
    }
}

impl FlowFieldRequest {
    /// A copy of the request.
    pub fn duplicate(&self) -> (r: FlowFieldRequest)
        ensures
            r.bounds == self.bounds,
            r.goal_cell == self.goal_cell,
            r.blocked_cells@ == self.blocked_cells@,
            r.map_checksum == self.map_checksum,
    {
        FlowFieldRequest {
            bounds: self.bounds,
            goal_cell: self.goal_cell,
            blocked_cells: copy_vec(&self.blocked_cells),
            map_checksum: self.map_checksum,
        }
    }
}

/// Runs a movement scale scenario for its ticks: flow-field scenarios step every entity along a
/// cached flow field and probe a fixed sample of entities against a collision world, the other
/// families apply scripted deltas.
pub fn run_movement_scale_scenario(scenario: MovementScaleScenario) -> (r: MovementScaleRun)
    requires
        scenario_in_range(scenario),
    ensures
        r.scenario_id == scenario.id,
        r.option_family == scenario.option_family,
        r.entity_count == scenario.entity_count,
        r.tick_count == scenario.tick_count,
        r.final_tick == scenario.tick_count,
        r.blocker_cell_count == scenario.blocker_cell_count,
        r.map_checksum == scenario.map_checksum,
        r.movement_queries == clamp_u64(scenario.tick_count * query_row(scenario, scenario.entity_count as nat)),
        exists|es: Seq<EntityState>|
            es.len() == scenario.entity_count && r.occupied_cells == (if scenario.tick_count > 0 {
                occupied_set(es, scenario.cell_size_mm as int).len()
            } else {
                0
            }) && (scenario.option_family != MovementOptionFamily::FlowFieldObjective ==> forall|i: int|
                0 <= i < es.len() ==> #[trigger] es[i].position == scripted_position(scenario, i, scenario.tick_count as nat)),
        r.correction_count == clamp_u64(correction_upto(scenario, scenario.tick_count as nat)),
        r.flow_field_collision_movement_probe_count == clamp_u64(
            scenario.tick_count * (if scenario.option_family == MovementOptionFamily::FlowFieldObjective {
                sample_count(scenario.entity_count as int)
            } else {
                0
            }),
        ),
        r.flow_field_collision_admission_check_count == r.flow_field_collision_movement_probe_count,
        r.flow_field_collision_movement_applied_delta_count + r.flow_field_collision_movement_blocked_delta_count
            == r.flow_field_collision_movement_probe_count,
        r.flow_field_collision_apply_physics_candidate_count == r.flow_field_collision_movement_applied_delta_count,
        r.flow_field_collision_resolved_admission_check_count == r.flow_field_collision_movement_probe_count,
        r.flow_field_collision_movement_probe_blocked_count == r.flow_field_collision_resolved_admission_rejected_count,
        r.flow_field_collision_movement_probe_corrected_count
            == r.flow_field_collision_resolved_admission_accepted_after_resolution_count,
        r.flow_field_collision_movement_corrected_delta_count == r.flow_field_collision_movement_probe_corrected_count,
        ({
            let flow = scenario.option_family == MovementOptionFamily::FlowFieldObjective;
            let ran = flow && scenario.tick_count > 0;
            &&& r.flow_field_cache_request_count == (if flow { scenario.tick_count as int } else { 0 })
            &&& r.flow_field_build_count == (if ran { 1int } else { 0 })
            &&& r.flow_field_cache_hit_count == (if ran { scenario.tick_count - 1 } else { 0 })
            &&& r.flow_field_cache_eviction_count == 0
            &&& r.flow_field_cache_entry_count == (if ran { 1int } else { 0 })
            &&& r.flow_field_query_count == (if flow { clamp_u64(scenario.tick_count * scenario.entity_count) } else { 0 })
            &&& r.flow_field_static_obstacle_body_count == (if ran { scenario.blocker_cell_count as int } else { 0 })
            &&& r.flow_field_visited_cell_count == (if ran {
                reachable_cells(scenario_flow_bounds(scenario), scenario_blocked_keys(scenario), scenario_goal(scenario)).len()
            } else {
                0
            })
            &&& r.flow_field_blocked_cell_count == (if ran {
                if scenario.blocker_cell_count < 104 { scenario.blocker_cell_count as int } else { 104 }
            } else {
                0
            })
            &&& !flow ==> r.flow_field_collision_movement_probe_count == 0
                && r.flow_field_collision_admission_check_count == 0
                && r.flow_field_collision_resolved_admission_check_count == 0
                && r.flow_field_collision_movement_applied_delta_count == 0
                && r.flow_field_collision_apply_physics_candidate_count == 0
                && r.flow_field_collision_apply_physics_correction_abs_mm_total == 0
                && r.flow_field_collision_apply_physics_synced_position_count == 0
                && r.flow_field_collision_resolved_admission_correction_abs_mm_total == 0
                && r.flow_field_collision_resolved_admission_max_correction_abs_mm == 0
                && r.flow_field_unreachable_count == 0
                && r.flow_field_collision_admission_accepted_count == 0
                && r.flow_field_collision_admission_rejected_count == 0
                && r.flow_field_collision_resolved_admission_accepted_after_resolution_count == 0
                && r.flow_field_collision_resolved_admission_rejected_count == 0
                && r.flow_field_collision_resolved_admission_iterations_run_count == 0
                && r.flow_field_collision_resolved_admission_correction_count == 0
                && r.flow_field_collision_movement_probe_corrected_count == 0
                && r.flow_field_collision_movement_probe_blocked_count == 0
                && r.flow_field_collision_movement_corrected_delta_count == 0
                && r.flow_field_collision_movement_blocked_delta_count == 0
                && r.flow_field_collision_apply_physics_initial_contact_count == 0
                && r.flow_field_collision_apply_physics_iterations_run_count == 0
                && r.flow_field_collision_apply_physics_correction_count == 0
                && r.flow_field_collision_apply_physics_max_correction_abs_mm == 0
                && r.flow_field_collision_apply_physics_final_contact_count == 0
        }),
{
    let n = scenario.entity_count;
    let mut entities = build_entities(scenario);
    let mut grid = SpatialGrid::new(scenario.cell_size_mm);
    let mut tick_loop = TickLoop::foundation_default();
    let flow = match scenario.option_family {
        MovementOptionFamily::FlowFieldObjective => true,
        _ => false,
    };
    let bounds = flow_field_bounds_for(scenario);
    let goal = flow_field_goal_for(scenario);
    let blockers = flow_field_blockers_for(scenario, goal, bounds);
    let request = FlowFieldRequest {
        bounds,
        goal_cell: goal,
        blocked_cells: copy_vec(&blockers),
        map_checksum: scenario.map_checksum,
    };
    let samples: Vec<u64> = if flow { flow_field_collision_sample_indices(n) } else { Vec::new() };
    let mut cache = FlowFieldCache::new();
    let mut movement_queries: u64 = 0;
    let mut correction_count: u64 = 0;
    let mut query_count: u64 = 0;
    let mut visited: usize = 0;
    let mut blocked_count: usize = 0;
    let mut unreachable: u64 = 0;
    let mut admission_checks: u64 = 0;
    let mut admission_accepted: u64 = 0;
    let mut admission_rejected: u64 = 0;
    let mut resolved_checks: u64 = 0;
    let mut resolved_accepted_after: u64 = 0;
    let mut resolved_rejected: u64 = 0;
    let mut resolved_iterations: u64 = 0;
    let mut resolved_corrections: u64 = 0;
    let mut resolved_abs_total: u64 = 0;
    let mut resolved_max_abs: u32 = 0;
    let mut probes: u64 = 0;
    let mut probes_corrected: u64 = 0;
    let mut probes_blocked: u64 = 0;
    let mut applied_deltas: u64 = 0;
    let mut corrected_deltas: u64 = 0;
    let mut blocked_deltas: u64 = 0;
    let mut physics_candidates: u64 = 0;
    let mut physics_initial_contacts: u64 = 0;
    let mut physics_iterations: u64 = 0;
    let mut physics_corrections: u64 = 0;
    let mut physics_abs_total: u64 = 0;
    let mut physics_max_abs: u32 = 0;
    let mut physics_final_contacts: u64 = 0;
    let mut synced_positions: u64 = 0;
    let mut static_bodies: usize = 0;
    let mut tick_index: u64 = 0;
    proof {
        lemma_costs_nonneg(scenario, 0, n as nat);
    }
    while tick_index < scenario.tick_count
        invariant
            scenario_in_range(scenario),
            n == scenario.entity_count,
            flow == (scenario.option_family == MovementOptionFamily::FlowFieldObjective),
            entities.wf(),
            entities@.len() == n,
            grid.wf(),
            grid.spec_cell_size() == scenario.cell_size_mm,
            tick_loop.spec_tick() == tick_index,
            tick_index <= scenario.tick_count,
            cache.wf(),
            request.bounds == bounds,
            request.goal_cell == goal,
            request.blocked_cells@ == blockers@,
            request.map_checksum == scenario.map_checksum,
            !blockers@.contains(goal),
            bounds.min_x == -4 && bounds.min_y == -4 && 8 <= bounds.max_x && 8 <= bounds.max_y,
            blockers@.len() <= 10_000_000,
            samples@.len() <= FLOW_FIELD_COLLISION_SAMPLE_COUNT,
            strictly_increasing(samples@),
            cache.spec_stats().request_count == (if flow { tick_index as int } else { 0 }),
            cache.spec_stats().build_count == (if flow && tick_index > 0 { 1int } else { 0 }),
            cache.spec_stats().hit_count == (if flow && tick_index > 0 { tick_index - 1 } else { 0 }),
            cache.spec_stats().eviction_count == 0,
            cache.spec_entries().len() == (if flow && tick_index > 0 { 1int } else { 0 }),
            flow && tick_index > 0 ==> cache.spec_entries()[0].0 == request_key(request),
            flow && tick_index > 0 ==> request_key_matches(request, request_key(request)),
            query_count == (if flow { clamp_u64(tick_index * n) } else { 0 }),
            movement_queries == clamp_u64(tick_index * query_row(scenario, n as nat)),
            correction_count == clamp_u64(correction_upto(scenario, tick_index as nat)),
            query_row(scenario, n as nat) >= 0,
            tick_index * query_row(scenario, n as nat) >= 0,
            admission_checks == probes,
            resolved_checks == probes,
            probes_blocked == resolved_rejected,
            probes_corrected == resolved_accepted_after,
            corrected_deltas == probes_corrected,
            samples@.len() == (if flow { sample_count(n as int) } else { 0 }),
            forall|i: int| 0 <= i < samples@.len() ==> #[trigger] samples@[i] < n,
            probes == clamp_u64(tick_index * samples@.len()),
            tick_index * samples@.len() >= 0,
            tick_index * samples@.len() <= 16_000_000_000,
            applied_deltas + blocked_deltas == probes,
            physics_candidates == applied_deltas,
            static_bodies == (if flow && tick_index > 0 { scenario.blocker_cell_count as int } else { 0 }),
            !flow ==> forall|i: int| 0 <= i < n ==> #[trigger] entities@[i].position == scripted_position(scenario, i, tick_index as nat),
            tick_index > 0 ==> forall|c: SpatialCell| #[trigger] grid.members(c) == ids_in_cell(entities@, scenario.cell_size_mm as int, c),
            tick_index == 0 ==> grid.spec_cells().len() == 0,
            flow && tick_index > 0 ==> blocked_count == (if scenario.blocker_cell_count < 104 {
                scenario.blocker_cell_count as int
            } else {
                104
            }),
            !(flow && tick_index > 0) ==> blocked_count == 0,
            flow && tick_index > 0 ==> visited == reachable_cells(bounds, scenario_blocked_keys(scenario), goal).len(),
            !(flow && tick_index > 0) ==> visited == 0,
            bounds == scenario_flow_bounds(scenario),
            goal == scenario_goal(scenario),
            forall|c: SpatialCell| #[trigger] blockers@.contains(c) <==> exists|i: int|
                0 <= i < scenario.blocker_cell_count && c == blocker_cell(bounds, i) && c != goal,
            goal.x == bounds.max_x - 2,
            bounds.max_x <= 10_000 && bounds.max_y <= 10_000_000,
            !flow ==> probes == 0 && admission_checks == 0 && resolved_checks == 0 && applied_deltas == 0
                && physics_candidates == 0 && physics_abs_total == 0 && synced_positions == 0
                && resolved_abs_total == 0 && resolved_max_abs == 0 && unreachable == 0 && admission_accepted == 0 && admission_rejected == 0
                && resolved_accepted_after == 0 && resolved_rejected == 0 && resolved_iterations == 0 && resolved_corrections == 0
                && probes_corrected == 0 && probes_blocked == 0 && corrected_deltas == 0 && blocked_deltas == 0
                && physics_initial_contacts == 0 && physics_iterations == 0 && physics_corrections == 0 && physics_max_abs == 0
                && physics_final_contacts == 0,
        decreases scenario.tick_count - tick_index,
    {
        let field: Option<FlowFieldMap> = if flow {
            let req = request.duplicate();
            proof {
                if tick_index > 0 {
                    assert(request_key_matches(req, request_key(request)));
                    lemma_request_key(req, request_key(request));
                }
            }
            let ghost e0 = cache.spec_entries();
            let got = cache.get_or_build(req);
            proof {
                if tick_index == 0 {
                    assert(request.blocked_cells@ == req.blocked_cells@);
                    assert(request_key_matches(request, request_key(req)));
                    lemma_request_key(request, request_key(req));
                    assert(!req.blocked_cells@.contains(req.goal_cell));
                    match got {
                        Ok(_) => {},
                        Err(FlowFieldError::InvalidBounds) => {
                            assert(false);
                        },
                        Err(FlowFieldError::GoalBlocked) => {
                            assert(false);
                        },
                    }
                    assert(cache.spec_entries().len() == 1);
                } else {
                    assert(cache.spec_entries().len() == 1);
                }
                if got is Ok {
                    let f = got->Ok_0;
                    if tick_index > 0 {
                        assert(e0[0].0 == request_key(req));
                        assert(entry_matches(e0[0].0, e0[0].1));
                        f.lemma_same_field(e0[0].1);
                    }
                    assert(entry_matches(request_key(request), f));
                }
            }
            match got {
                Ok(f) => {
                    visited = f.visited_cell_count();
                    blocked_count = f.blocked_cell_count();
                    proof {
                        let k = request_key(request);
                        assert forall|c: SpatialCell| #[trigger] f.spec_blocked().contains(cell_key(c) as u64) <==> ((exists|i: int|
                            0 <= i < scenario.blocker_cell_count && c == blocker_cell(bounds, i) && c != goal) && in_bounds(
                            bounds,
                            c.x as int,
                            c.y as int,
                        )) by {
                            assert(k.2.contains(cell_key(c) as u64) <==> blockers@.contains(c));
                        }
                        lemma_blocked_keys_len(bounds, goal, scenario.blocker_cell_count as int, f.spec_blocked());
                        let kb = scenario_blocked_keys(scenario);
                        assert(goal == scenario_goal(scenario));
                        assert(blocked_membership(bounds, goal, scenario.blocker_cell_count as int, f.spec_blocked()));
                        assert(blocked_membership(bounds, goal, scenario.blocker_cell_count as int, kb));
                        assert forall|x: u64| #[trigger] kb.contains(x) <==> f.spec_blocked().contains(x) by {
                            let c = lemma_key_cell(x);
                            lemma_cell_key(c, c);
                            assert(cell_key(c) as u64 == x);
                            assert(kb.contains(cell_key(c) as u64) <==> f.spec_blocked().contains(cell_key(c) as u64));
                        }
                        lemma_sorted_unique(kb, f.spec_blocked());
                        lemma_visited_count(f);
                    }
                    Some(f)
                },
                Err(_) => None,
            }
        } else {
            None
        };
        let mut world = if flow {
            static_bodies = scenario.blocker_cell_count;
            flow_field_collision_world_for(scenario, &entities, &samples, &blockers)
        } else {
            CollisionWorld::new(scenario.cell_size_mm).unwrap()
        };
        let mut tick_candidates: u64 = 0;
        let mut entity_index: usize = 0;
        proof {
            lemma_costs_nonneg(scenario, tick_index as nat, 0);
            lemma_samples_below_zero(samples@);
        }
        while entity_index < n
            invariant
                scenario_in_range(scenario),
                n == scenario.entity_count,
                flow == (scenario.option_family == MovementOptionFamily::FlowFieldObjective),
                entities.wf(),
                entities@.len() == n,
                grid.wf(),
                grid.spec_cell_size() == scenario.cell_size_mm,
                world.wf(),
                tick_index < scenario.tick_count,
                entity_index <= n,
                samples@.len() <= FLOW_FIELD_COLLISION_SAMPLE_COUNT,
                strictly_increasing(samples@),
                field is Some ==> field->Some_0.wf(),
                query_count == (if flow { clamp_u64(tick_index * n + entity_index) } else { 0 }),
                !flow ==> forall|i: int| 0 <= i < n ==> #[trigger] entities@[i].position == scripted_position(
                    scenario,
                    i,
                    (if i < entity_index { tick_index + 1 } else { tick_index as int }) as nat,
                ),
                movement_queries == clamp_u64(tick_index * query_row(scenario, n as nat) + query_row(scenario, entity_index as nat)),
                correction_count == clamp_u64(
                    correction_upto(scenario, tick_index as nat) + correction_row(scenario, tick_index as int, entity_index as nat),
                ),
                query_row(scenario, entity_index as nat) >= 0,
                admission_checks == probes,
                resolved_checks == probes,
                probes_blocked == resolved_rejected,
                probes_corrected == resolved_accepted_after,
                corrected_deltas == probes_corrected,
                samples@.len() == (if flow { sample_count(n as int) } else { 0 }),
                forall|i: int| 0 <= i < samples@.len() ==> #[trigger] samples@[i] < n,
                probes == clamp_u64(tick_index * samples@.len() + samples_below(samples@, entity_index as int)),
                tick_index * samples@.len() >= 0,
                tick_index * samples@.len() <= 16_000_000_000,
                applied_deltas + blocked_deltas == probes,
                physics_candidates == applied_deltas,
                samples_below(samples@, entity_index as int) >= 0,
                correction_row(scenario, tick_index as int, entity_index as nat) >= 0,
                tick_index * query_row(scenario, n as nat) >= 0,
                correction_upto(scenario, tick_index as nat) >= 0,
                !flow ==> probes == 0 && admission_checks == 0 && resolved_checks == 0 && applied_deltas == 0
                    && physics_candidates == 0 && physics_abs_total == 0 && synced_positions == 0
                    && resolved_abs_total == 0 && resolved_max_abs == 0 && unreachable == 0 && tick_candidates == 0 && admission_accepted == 0 && admission_rejected == 0
                    && resolved_accepted_after == 0 && resolved_rejected == 0 && resolved_iterations == 0 && resolved_corrections == 0
                    && probes_corrected == 0 && probes_blocked == 0 && corrected_deltas == 0 && blocked_deltas == 0
                    && physics_initial_contacts == 0 && physics_iterations == 0 && physics_corrections == 0 && physics_max_abs == 0
                    && physics_final_contacts == 0,
            decreases n - entity_index,
        {
            proof {
                lemma_costs_nonneg(scenario, tick_index as nat, (entity_index + 1) as nat);
                lemma_samples_below_step(samples@, entity_index as int);
                lemma_samples_below_len(samples@, entity_index as int + 1);
                lemma_samples_below_len(samples@, entity_index as int);
                if !flow {
                    assert(!samples@.contains(entity_index as u64));
                }
            }
            movement_queries = sat_add_u64(movement_queries, movement_query_cost(scenario, entity_index));
            correction_count = sat_add_u64(correction_count, correction_cost(scenario, entity_index, tick_index));
            let delta = if flow {
                query_count = sat_add_u64(query_count, 1);
                let position = match entities.position(entity_index) {
                    Some(p) => p,
                    None => WorldPosition { x_mm: 0, y_mm: 0 },
                };
                let cell = grid.cell_for_position(position);
                let step = match &field {
                    Some(f) => f.step_from(cell, scenario.cell_size_mm),
                    None => FlowFieldStep {
                        from_cell: cell,
                        next_cell: None,
                        movement_delta: MovementDelta { dx_mm: 0, dy_mm: 0 },
                        cost: None,
                        result: FlowFieldStepResult::Unreachable,
                    },
                };
                match step.result {
                    FlowFieldStepResult::Blocked => {
                        unreachable = sat_add_u64(unreachable, 1);
                    },
                    FlowFieldStepResult::Unreachable => {
                        unreachable = sat_add_u64(unreachable, 1);
                    },
                    _ => {},
                }
                let mut delta = step.movement_delta;
                let sampled = match find_key(&samples, entity_index as u64) {
                    Some(_) => true,
                    None => false,
                };
                if sampled {
                    let candidate = WorldPosition {
                        x_mm: sat_add_i32(position.x_mm, step.movement_delta.dx_mm),
                        y_mm: sat_add_i32(position.y_mm, step.movement_delta.dy_mm),
                    };
                    let id = EntityId(entity_index as u64 + 1);
                    let probe = world.probe_movement_after_resolution(id, candidate, FLOW_FIELD_COLLISION_RESOLUTION_ITERATIONS);
                    probes = sat_add_u64(probes, 1);
                    let moved = match probe.decision {
                        CollisionMovementDecision::Corrected => {
                            probes_corrected = sat_add_u64(probes_corrected, 1);
                            applied_deltas = sat_add_u64(applied_deltas, 1);
                            corrected_deltas = sat_add_u64(corrected_deltas, 1);
                            true
                        },
                        CollisionMovementDecision::Blocked => {
                            probes_blocked = sat_add_u64(probes_blocked, 1);
                            blocked_deltas = sat_add_u64(blocked_deltas, 1);
                            false
                        },
                        CollisionMovementDecision::Accepted => {
                            applied_deltas = sat_add_u64(applied_deltas, 1);
                            true
                        },
                        CollisionMovementDecision::UnknownBody => {
                            blocked_deltas = sat_add_u64(blocked_deltas, 1);
                            false
                        },
                    };
                    if moved {
                        delta = match probe.resolved_delta {
                            Some(d) => d,
                            None => MovementDelta { dx_mm: 0, dy_mm: 0 },
                        };
                        match (world.body(id), probe.resolved_position) {
                            (Some(body), Some(resolved)) => {
                                let _ = world.insert_or_update(CollisionBody { position: resolved, ..body });
                                physics_candidates = sat_add_u64(physics_candidates, 1);
                                tick_candidates = sat_add_u64(tick_candidates, 1);
                            },
                            _ => {},
                        }
                    } else {
                        delta = MovementDelta { dx_mm: 0, dy_mm: 0 };
                    }
                    admission_checks = sat_add_u64(admission_checks, 1);
                    match probe.initial_result {
                        CollisionAdmissionResult::Accepted => {
                            admission_accepted = sat_add_u64(admission_accepted, 1);
                        },
                        CollisionAdmissionResult::RejectedOverlap => {
                            admission_rejected = sat_add_u64(admission_rejected, 1);
                        },
                        CollisionAdmissionResult::UnknownBody => {},
                    }
                    resolved_checks = sat_add_u64(resolved_checks, 1);
                    resolved_iterations = sat_add_u64(resolved_iterations, probe.iterations_run as u64);
                    resolved_corrections = sat_add_u64(resolved_corrections, probe.applied_correction_count as u64);
                    resolved_abs_total = sat_add_u64(resolved_abs_total, probe.applied_correction_abs_mm_total);
                    if probe.max_applied_correction_abs_mm > resolved_max_abs {
                        resolved_max_abs = probe.max_applied_correction_abs_mm;
                    }
                    match probe.resolved_result {
                        CollisionResolvedAdmissionResult::AcceptedAfterResolution => {
                            resolved_accepted_after = sat_add_u64(resolved_accepted_after, 1);
                        },
                        CollisionResolvedAdmissionResult::RejectedStillOverlapping => {
                            resolved_rejected = sat_add_u64(resolved_rejected, 1);
                        },
                        _ => {},
                    }
                }
                delta
            } else {
                scenario_delta(scenario, entity_index, tick_index)
            };
            let ghost e0 = entities@;
            entities.apply_movement_stub(entity_index, delta);
            proof {
                if !flow {
                    assert(delta == scripted_delta(scenario, entity_index as int, tick_index as int));
                    assert forall|i: int| 0 <= i < n implies #[trigger] entities@[i].position == scripted_position(
                        scenario,
                        i,
                        (if i < entity_index + 1 { tick_index + 1 } else { tick_index as int }) as nat,
                    ) by {
                        if i == entity_index {
                            assert(e0[i].position == scripted_position(scenario, i, tick_index as nat));
                        } else {
                            assert(entities@[i] == e0[i]);
                        }
                    }
                }
            }
            entity_index += 1;
        }
        if flow && tick_candidates > 0 {
            let physics = world.step_overlap_resolution(FLOW_FIELD_COLLISION_RESOLUTION_ITERATIONS);
            physics_initial_contacts = sat_add_u64(physics_initial_contacts, physics.initial_contact_count as u64);
            physics_iterations = sat_add_u64(physics_iterations, physics.iterations_run as u64);
            physics_corrections = sat_add_u64(physics_corrections, physics.applied_correction_count as u64);
            physics_abs_total = sat_add_u64(physics_abs_total, physics.applied_correction_abs_mm_total);
            if physics.max_applied_correction_abs_mm > physics_max_abs {
                physics_max_abs = physics.max_applied_correction_abs_mm;
            }
            physics_final_contacts = sat_add_u64(physics_final_contacts, physics.final_contact_count as u64);
            let synced = sync_flow_field_collision_sample_positions(&world, &mut entities, &samples);
            synced_positions = sat_add_u64(synced_positions, synced);
        }
        proof {
            if flow {
                assert((tick_index + 1) * n == tick_index * n + n) by (nonlinear_arith);
            }
            let q = query_row(scenario, n as nat);
            assert((tick_index + 1) * q == tick_index * q + q) by (nonlinear_arith);
            let m = samples@.len() as int;
            lemma_samples_below_all(samples@, n as int);
            assert((tick_index + 1) * m == tick_index * m + m) by (nonlinear_arith);
            assert((tick_index + 1) * m >= 0) by (nonlinear_arith)
                requires
                    m >= 0,
            ;
            assert((tick_index + 1) * m <= 16_000_000_000) by (nonlinear_arith)
                requires
                    0 <= m <= 16,
                    tick_index < 1_000_000_000,
            ;
            assert((tick_index + 1) * q >= 0) by (nonlinear_arith)
                requires
                    q >= 0,
            ;
        }
        grid.rebuild(&entities);
        tick_loop.step();
        tick_index = tick_index + 1;
    }
    let stats = cache.stats();
    let occupied_cells = grid.occupied_cell_count();
    proof {
        if scenario.tick_count > 0 {
            grid.lemma_occupied_count(entities@);
        }
        let es = entities@;
        assert(es.len() == scenario.entity_count && occupied_cells == (if scenario.tick_count > 0 {
            occupied_set(es, scenario.cell_size_mm as int).len()
        } else {
            0
        }));
    }
    MovementScaleRun {
        scenario_id: scenario.id,
        option_family: scenario.option_family,
        entity_count: entities.len(),
        tick_count: scenario.tick_count,
        final_tick: tick_loop.current_tick().0,
        movement_queries,
        correction_count,
        occupied_cells,
        blocker_cell_count: scenario.blocker_cell_count,
        flow_field_build_count: stats.build_count,
        flow_field_cache_hit_count: stats.hit_count,
        flow_field_cache_request_count: stats.request_count,
        flow_field_cache_eviction_count: stats.eviction_count,
        flow_field_cache_entry_count: cache.len(),
        flow_field_query_count: query_count,
        flow_field_visited_cell_count: visited,
        flow_field_blocked_cell_count: blocked_count,
        flow_field_unreachable_count: unreachable,
        flow_field_collision_admission_check_count: admission_checks,
        flow_field_collision_admission_accepted_count: admission_accepted,
        flow_field_collision_admission_rejected_count: admission_rejected,
        flow_field_collision_resolved_admission_check_count: resolved_checks,
        flow_field_collision_resolved_admission_accepted_after_resolution_count: resolved_accepted_after,
        flow_field_collision_resolved_admission_rejected_count: resolved_rejected,
        flow_field_collision_resolved_admission_iterations_run_count: resolved_iterations,
        flow_field_collision_resolved_admission_correction_count: resolved_corrections,
        flow_field_collision_resolved_admission_correction_abs_mm_total: resolved_abs_total,
        flow_field_collision_resolved_admission_max_correction_abs_mm: resolved_max_abs,
        flow_field_collision_movement_probe_count: probes,
        flow_field_collision_movement_probe_corrected_count: probes_corrected,
        flow_field_collision_movement_probe_blocked_count: probes_blocked,
        flow_field_collision_movement_applied_delta_count: applied_deltas,
        flow_field_collision_movement_corrected_delta_count: corrected_deltas,
        flow_field_collision_movement_blocked_delta_count: blocked_deltas,
        flow_field_collision_apply_physics_candidate_count: physics_candidates,
        flow_field_collision_apply_physics_initial_contact_count: physics_initial_contacts,
        flow_field_collision_apply_physics_iterations_run_count: physics_iterations,
        flow_field_collision_apply_physics_correction_count: physics_corrections,
        flow_field_collision_apply_physics_correction_abs_mm_total: physics_abs_total,
        flow_field_collision_apply_physics_max_correction_abs_mm: physics_max_abs,
        flow_field_collision_apply_physics_final_contact_count: physics_final_contacts,
        flow_field_collision_apply_physics_synced_position_count: synced_positions,
        flow_field_static_obstacle_body_count: static_bodies,
        map_checksum: scenario.map_checksum,
    }
}

} // verus!
