use vstd::prelude::*;

use crate::simulation::{EntityId, EntityState, PlayerSessionId, Snapshot, SnapshotBuilder, SpatialCell, SpatialGrid, Tick};

verus! {

#[derive(Debug, Clone, Copy, PartialEq, Eq, Structural)]
pub struct AoiRegion {
    pub center: SpatialCell,
    pub radius_cells: u16,
}

/// Whether a cell lies in the square of cells within `radius_cells` of the centre.
pub open spec fn region_contains(region: AoiRegion, cell: SpatialCell) -> bool {
    let r = region.radius_cells as int;
    -r <= cell.x - region.center.x <= r && -r <= cell.y - region.center.y <= r
}

/// The region's square lies inside the range of `i32` cell coordinates.
pub open spec fn region_in_range(region: AoiRegion) -> bool {
    let r = region.radius_cells as int;
    i32::MIN <= region.center.x - r && region.center.x + r <= i32::MAX && i32::MIN <= region.center.y - r
        && region.center.y + r <= i32::MAX
}

/// The cells of a region, row by row (by `y`), each row by `x`.
pub open spec fn region_cells(region: AoiRegion) -> Seq<SpatialCell> {
    let side = 2 * region.radius_cells as int + 1;
    Seq::new(
        (side * side) as nat,
        |k: int|
            SpatialCell {
                x: (region.center.x - region.radius_cells + k % side) as i32,
                y: (region.center.y - region.radius_cells + k / side) as i32,
            },
    )
}

impl AoiRegion {
    pub fn new(center: SpatialCell, radius_cells: u16) -> (r: Self)
        ensures
            r == (AoiRegion { center, radius_cells }),
    {
        AoiRegion { center, radius_cells }
    }

    pub fn contains_cell(self, cell: SpatialCell) -> (r: bool)
        ensures
            r == region_contains(self, cell),
    {
        let radius = self.radius_cells as i64;
        let dx = cell.x as i64 - self.center.x as i64;
        let dy = cell.y as i64 - self.center.y as i64;
        -radius <= dx && dx <= radius && -radius <= dy && dy <= radius
    }

    /// The cells of the region, row by row.
    pub fn cells(self) -> (r: Vec<SpatialCell>)
        requires
            region_in_range(self),
        ensures
            r@ == region_cells(self),
    {
        let radius = self.radius_cells as i64;
        let side: i64 = radius * 2 + 1;
        let mut cells: Vec<SpatialCell> = Vec::new();
        let mut row: i64 = 0;
        while row < side
            invariant
                region_in_range(self),
                radius == self.radius_cells as int,
                side == 2 * radius + 1,
                0 <= row <= side,
                cells@ == region_cells(self).take(row * side),
            decreases side - row,
        {
            let mut col: i64 = 0;
            while col < side
                invariant
                    region_in_range(self),
                    radius == self.radius_cells as int,
                    side == 2 * radius + 1,
                    0 <= row < side,
                    0 <= col <= side,
                    cells@ == region_cells(self).take(row * side + col),
                decreases side - col,
            {
                let x = self.center.x as i64 - radius + col;
                let y = self.center.y as i64 - radius + row;
                cells.push(SpatialCell { x: x as i32, y: y as i32 });
                proof {
                    let sd: int = side as int;
                    let rw: int = row as int;
                    let cl: int = col as int;
                    let k: int = rw * sd + cl;
                    assert(k % sd == cl && k / sd == rw) by (nonlinear_arith)
                        requires
                            k == rw * sd + cl,
                            0 <= cl < sd,
                            0 <= rw,
                    ;
                    assert(k < sd * sd) by (nonlinear_arith)
                        requires
                            k == rw * sd + cl,
                            0 <= cl < sd,
                            0 <= rw < sd,
                    ;
                    assert(cells@ =~= region_cells(self).take(k + 1));
                }
                col += 1;
            }
            proof {
                let sd: int = side as int;
                let rw: int = row as int;
                assert((rw + 1) * sd == rw * sd + sd) by (nonlinear_arith);
            }
            row += 1;
        }
        proof {
            let sd: int = side as int;
            assert(region_cells(self).take(sd * sd) =~= region_cells(self));
        }
        cells
    }
}

/// Ids in strictly increasing order.
pub open spec fn ids_sorted(s: Seq<EntityId>) -> bool {
    forall|i: int, j: int| 0 <= i < j < s.len() ==> s[i].0 < s[j].0
}

/// Inserts an id into a strictly increasing id list unless it is already there.
fn insert_id(ids: &mut Vec<EntityId>, id: EntityId)
    requires
        ids_sorted(old(ids)@),
    ensures
        ids_sorted(final(ids)@),
        forall|x: EntityId| #[trigger] final(ids)@.contains(x) <==> (old(ids)@.contains(x) || x == id),
{
    let mut lo: usize = 0;
    let mut hi: usize = ids.len();
    while lo < hi
        invariant
            ids_sorted(ids@),
            lo <= hi <= ids@.len(),
            forall|i: int| 0 <= i < lo ==> ids@[i].0 < id.0,
            forall|i: int| hi <= i < ids@.len() ==> ids@[i].0 >= id.0,
        decreases hi - lo,
    {
        let mid = lo + (hi - lo) / 2;
        if ids[mid].0 < id.0 {
            lo = mid + 1;
        } else {
            hi = mid;
        }
    }
    if lo < ids.len() && ids[lo].0 == id.0 {
        proof {
            assert(ids@[lo as int] == id);
            assert forall|x: EntityId| #[trigger] ids@.contains(x) <==> (ids@.contains(x) || x == id) by {
                if x == id {
                    assert(ids@[lo as int] == x);
                }
            }
        }
        return;
    }
    let ghost before = ids@;
    ids.insert(lo, id);
    proof {
        assert forall|a: int, b: int| 0 <= a < b < ids@.len() implies ids@[a].0 < ids@[b].0 by {
            if b < lo {
            } else if b == lo {
            } else if a < lo {
            } else if a == lo {
                assert(ids@[b] == before[b - 1]);
            } else {
            }
        }
        assert forall|x: EntityId| #[trigger] ids@.contains(x) <==> (before.contains(x) || x == id) by {
            if ids@.contains(x) {
                let j = choose|j: int| 0 <= j < ids@.len() && ids@[j] == x;
                if j < lo {
                    assert(before[j] == x);
                } else if j > lo {
                    assert(before[j - 1] == x);
                }
            }
            if before.contains(x) {
                let j = choose|j: int| 0 <= j < before.len() && before[j] == x;
                if j < lo {
                    assert(ids@[j] == x);
                } else {
                    assert(ids@[j + 1] == x);
                }
            }
            if x == id {
                assert(ids@[lo as int] == x);
            }
        }
    }
}

/// Whether a strictly increasing id list holds an id.
fn has_id(ids: &Vec<EntityId>, id: EntityId) -> (r: bool)
    requires
        ids_sorted(ids@),
    ensures
        r == ids@.contains(id),
{
    let mut lo: usize = 0;
    let mut hi: usize = ids.len();
    while lo < hi
        invariant
            ids_sorted(ids@),
            lo <= hi <= ids@.len(),
            forall|i: int| 0 <= i < lo ==> ids@[i].0 < id.0,
            forall|i: int| hi <= i < ids@.len() ==> ids@[i].0 >= id.0,
        decreases hi - lo,
    {
        let mid = lo + (hi - lo) / 2;
        if ids[mid].0 < id.0 {
            lo = mid + 1;
        } else {
            hi = mid;
        }
    }
    if lo < ids.len() && ids[lo].0 == id.0 {
        assert(ids@[lo as int] == id);
        true
    } else {
        proof {
            if ids@.contains(id) {
                let j = choose|j: int| 0 <= j < ids@.len() && ids@[j] == id;
                if j > lo {
                    assert(ids@[lo as int].0 < ids@[j].0);
                }
            }
        }
        false
    }
}

/// The ids of `a` that are not in `b`, in increasing order.
fn id_difference(a: &Vec<EntityId>, b: &Vec<EntityId>) -> (r: Vec<EntityId>)
    requires
        ids_sorted(a@),
        ids_sorted(b@),
    ensures
        ids_sorted(r@),
        forall|x: EntityId| #[trigger] r@.contains(x) <==> (a@.contains(x) && !b@.contains(x)),
{
    let mut out: Vec<EntityId> = Vec::new();
    let mut i: usize = 0;
    while i < a.len()
        invariant
            ids_sorted(a@),
            ids_sorted(b@),
            i <= a@.len(),
            ids_sorted(out@),
            forall|k: int| 0 <= k < out@.len() ==> #[trigger] out@[k].0 < (if i < a@.len() { a@[i as int].0 as int } else { u64::MAX as int + 1 }),
            forall|x: EntityId| #[trigger] out@.contains(x) <==> (a@.take(i as int).contains(x) && !b@.contains(x)),
        decreases a@.len() - i,
    {
        let x = a[i];
        let ghost before = out@;
        if !has_id(b, x) {
            out.push(x);
        }
        proof {
            let t = a@.take(i + 1);
            let t0 = a@.take(i as int);
            assert(t == t0.push(x));
            assert forall|y: EntityId| #[trigger] out@.contains(y) <==> (t.contains(y) && !b@.contains(y)) by {
                if t.contains(y) && y != x {
                    let j = choose|j: int| 0 <= j < t.len() && t[j] == y;
                    assert(t0[j] == y);
                }
                if t0.contains(y) {
                    let j = choose|j: int| 0 <= j < t0.len() && t0[j] == y;
                    assert(t[j] == y);
                }
                if y == x {
                    assert(t[i as int] == y);
                }
                if out@.contains(y) && y != x {
                    let j = choose|j: int| 0 <= j < out@.len() && out@[j] == y;
                    assert(before[j] == y);
                }
                if before.contains(y) {
                    let j = choose|j: int| 0 <= j < before.len() && before[j] == y;
                    assert(out@[j] == y);
                }
                if y == x && !b@.contains(x) {
                    assert(out@[before.len() as int] == y);
                }
            }
        }
        i += 1;
    }
    assert(a@.take(a@.len() as int) == a@);
    out
}

/// The ids of the entities in the cells of a region, without repeats.
pub open spec fn region_visible(region: AoiRegion, grid: SpatialGrid, id: EntityId) -> bool {
    exists|c: SpatialCell| region_contains(region, c) && #[trigger] grid.members(c).contains(id)
}

/// The ids of the entities in the cells of a region, in increasing order.
pub fn visible_entities_for_region(region: AoiRegion, grid: &SpatialGrid) -> (r: Vec<EntityId>)
    requires
        grid.wf(),
        region_in_range(region),
    ensures
        ids_sorted(r@),
        forall|id: EntityId| #[trigger] r@.contains(id) <==> region_visible(region, *grid, id),
{
    let cells = region.cells();
    let mut visible: Vec<EntityId> = Vec::new();
    let mut p: usize = 0;
    while p < cells.len()
        invariant
            grid.wf(),
            cells@ == region_cells(region),
            p <= cells@.len(),
            ids_sorted(visible@),
            forall|id: EntityId| #[trigger] visible@.contains(id) <==> exists|q: int| 0 <= q < p && #[trigger] grid.members(cells@[q]).contains(id),
        decreases cells@.len() - p,
    {
        let members = grid.entities_in_cell(cells[p]);
        let mut m: usize = 0;
        while m < members.len()
            invariant
                grid.wf(),
                cells@ == region_cells(region),
                p < cells@.len(),
                members@ == grid.members(cells@[p as int]),
                m <= members@.len(),
                ids_sorted(visible@),
                forall|id: EntityId| #[trigger] visible@.contains(id) <==> ((exists|q: int| 0 <= q < p && #[trigger] grid.members(cells@[q]).contains(id))
                    || members@.take(m as int).contains(id)),
            decreases members@.len() - m,
        {
            let ghost before = visible@;
            insert_id(&mut visible, members[m]);
            proof {
                let t = members@.take(m + 1);
                let t0 = members@.take(m as int);
                assert(t == t0.push(members@[m as int]));
                assert forall|id: EntityId| #[trigger] visible@.contains(id) <==> ((exists|q: int| 0 <= q < p && #[trigger] grid.members(cells@[q]).contains(id))
                    || t.contains(id)) by {
                    if t.contains(id) && id != members@[m as int] {
                        let j = choose|j: int| 0 <= j < t.len() && t[j] == id;
                        assert(t0[j] == id);
                    }
                    if t0.contains(id) {
                        let j = choose|j: int| 0 <= j < t0.len() && t0[j] == id;
                        assert(t[j] == id);
                    }
                    if id == members@[m as int] {
                        assert(t[m as int] == id);
                    }
                }
            }
            m += 1;
        }
        proof {
            assert(members@.take(members@.len() as int) == members@);
            assert forall|id: EntityId| #[trigger] visible@.contains(id) <==> exists|q: int| 0 <= q < p + 1 && #[trigger] grid.members(cells@[q]).contains(id) by {
                if grid.members(cells@[p as int]).contains(id) {
                    assert(exists|q: int| 0 <= q < p + 1 && #[trigger] grid.members(cells@[q]).contains(id));
                }
                if exists|q: int| 0 <= q < p + 1 && #[trigger] grid.members(cells@[q]).contains(id) {
                    let q = choose|q: int| 0 <= q < p + 1 && #[trigger] grid.members(cells@[q]).contains(id);
                    if q < p {
                        assert(exists|q2: int| 0 <= q2 < p && #[trigger] grid.members(cells@[q2]).contains(id));
                    }
                }
            }
        }
        p += 1;
    }
    proof {
        assert forall|id: EntityId| #[trigger] visible@.contains(id) <==> region_visible(region, *grid, id) by {
            let side = 2 * region.radius_cells as int + 1;
            if visible@.contains(id) {
                let q = choose|q: int| 0 <= q < cells@.len() && #[trigger] grid.members(cells@[q]).contains(id);
                assert(0 <= q % side < side && q / side < side) by (nonlinear_arith)
                    requires
                        0 <= q < side * side,
                        side >= 1,
                ;
                assert(region_contains(region, cells@[q]));
            }
            if region_visible(region, *grid, id) {
                let c = choose|c: SpatialCell| region_contains(region, c) && #[trigger] grid.members(c).contains(id);
                let col = c.x - (region.center.x - region.radius_cells);
                let row = c.y - (region.center.y - region.radius_cells);
                let q = row * side + col;
                assert(0 <= q < side * side && q % side == col && q / side == row) by (nonlinear_arith)
                    requires
                        q == row * side + col,
                        0 <= col < side,
                        0 <= row < side,
                ;
                assert(cells@[q] == c);
            }
        }
    }
    visible
}

#[derive(Debug, Clone, PartialEq, Eq)]
pub struct ClientInterestState {
    pub session_id: PlayerSessionId,
    pub region: AoiRegion,
    visible_entities: Vec<EntityId>,
}

impl ClientInterestState {
    /// The entities the client currently sees, in increasing id order.
    pub closed spec fn spec_visible(&self) -> Seq<EntityId> {
        self.visible_entities@
    }

    pub closed spec fn spec_session(&self) -> PlayerSessionId {
        self.session_id
    }

    pub closed spec fn spec_region(&self) -> AoiRegion {
        self.region
    }

    pub fn new(session_id: PlayerSessionId, region: AoiRegion) -> (r: Self)
        ensures
            r.spec_session() == session_id,
            r.spec_region() == region,
            r.spec_visible() == Seq::<EntityId>::empty(),
    {
        ClientInterestState { session_id, region, visible_entities: Vec::new() }
    }

    pub fn visible_entities(&self) -> (r: &Vec<EntityId>)
        ensures
            r@ == self.spec_visible(),
    {
        &self.visible_entities
    }
}

#[derive(Debug, Clone, PartialEq, Eq)]
pub struct InterestUpdate {
    pub session_id: PlayerSessionId,
    pub region: AoiRegion,
    pub visible_entities: Vec<EntityId>,
    pub entered_entities: Vec<EntityId>,
    pub left_entities: Vec<EntityId>,
}

#[derive(Debug, Clone, Copy, PartialEq, Eq, Structural)]
pub struct AggregateFarState {
    pub cell: SpatialCell,
    pub entity_count: u32,
    pub representative_entity_id: EntityId,
    pub faction_mask: u64,
    pub flags_or: u32,
}

#[derive(Debug, Clone, PartialEq, Eq)]
pub struct InterestSnapshotDelta {
    pub snapshot: Snapshot,
    pub aggregate_far_state: Vec<AggregateFarState>,
}

/// Subscriptions ordered by strictly increasing session id, each seeing a sorted id list.
spec fn subscriptions_ok(s: Seq<ClientInterestState>) -> bool {
    &&& forall|i: int, j: int| 0 <= i < j < s.len() ==> s[i].session_id.0 < s[j].session_id.0
    &&& forall|i: int| 0 <= i < s.len() ==> ids_sorted(#[trigger] s[i].spec_visible())
}

/// Whether some subscription belongs to the session.
spec fn has_session(s: Seq<ClientInterestState>, id: PlayerSessionId) -> bool {
    exists|i: int| 0 <= i < s.len() && s[i].session_id == id
}

/// The subscriptions keyed by session: each session's region and visible ids.
spec fn subscription_map(s: Seq<ClientInterestState>) -> Map<PlayerSessionId, (AoiRegion, Seq<EntityId>)> {
    Map::new(
        |id: PlayerSessionId| has_session(s, id),
        |id: PlayerSessionId| {
            let i = choose|i: int| 0 <= i < s.len() && s[i].session_id == id;
            (s[i].region, s[i].spec_visible())
        },
    )
}

/// In a session-ordered list a session is found exactly where it is stored.
proof fn lemma_session_at(s: Seq<ClientInterestState>, i: int)
    requires
        subscriptions_ok(s),
        0 <= i < s.len(),
    ensures
        has_session(s, s[i].session_id),
        subscription_map(s)[s[i].session_id] == (s[i].region, s[i].spec_visible()),
{
    assert(s[i].session_id == s[i].session_id);
    let j = choose|j: int| 0 <= j < s.len() && s[j].session_id == s[i].session_id;
    if j < i {
        assert(s[j].session_id.0 < s[i].session_id.0);
    } else if j > i {
        assert(s[i].session_id.0 < s[j].session_id.0);
    }
}

/// Subscriptions of client sessions to areas of interest.
#[derive(Debug, Clone, PartialEq, Eq)]
pub struct InterestManager {
    subscriptions: Vec<ClientInterestState>,
}

impl InterestManager {
    pub closed spec fn wf(&self) -> bool {
        subscriptions_ok(self.subscriptions@)
    }

    /// Each subscribed session's region and visible ids.
    pub closed spec fn spec_map(&self) -> Map<PlayerSessionId, (AoiRegion, Seq<EntityId>)> {
        subscription_map(self.subscriptions@)
    }

    pub fn new() -> (r: Self)
        ensures
            r.wf(),
            r.spec_map() == Map::<PlayerSessionId, (AoiRegion, Seq<EntityId>)>::empty(),
    {
        let r = InterestManager { subscriptions: Vec::new() };
        assert(r.spec_map() =~= Map::<PlayerSessionId, (AoiRegion, Seq<EntityId>)>::empty());
        r
    }

    /// Position of the first subscription whose session id is not below `id`.
    fn lower_bound(&self, id: PlayerSessionId) -> (r: usize)
        requires
            self.wf(),
        ensures
            r <= self.subscriptions@.len(),
            forall|i: int| 0 <= i < r ==> self.subscriptions@[i].session_id.0 < id.0,
            forall|i: int| r <= i < self.subscriptions@.len() ==> self.subscriptions@[i].session_id.0 >= id.0,
            has_session(self.subscriptions@, id) <==> (r < self.subscriptions@.len() && self.subscriptions@[r as int].session_id == id),
    {
        let mut lo: usize = 0;
        let mut hi: usize = self.subscriptions.len();
        while lo < hi
            invariant
                self.wf(),
                lo <= hi <= self.subscriptions@.len(),
                forall|i: int| 0 <= i < lo ==> self.subscriptions@[i].session_id.0 < id.0,
                forall|i: int| hi <= i < self.subscriptions@.len() ==> self.subscriptions@[i].session_id.0 >= id.0,
            decreases hi - lo,
        {
            let mid = lo + (hi - lo) / 2;
            if self.subscriptions[mid].session_id.0 < id.0 {
                lo = mid + 1;
            } else {
                hi = mid;
            }
        }
        proof {
            if has_session(self.subscriptions@, id) {
                let k = choose|k: int| 0 <= k < self.subscriptions@.len() && self.subscriptions@[k].session_id == id;
                if k > lo {
                    assert(self.subscriptions@[lo as int].session_id.0 < self.subscriptions@[k].session_id.0);
                }
            }
        }
        lo
    }

    /// Subscribes a session to a region, or moves its subscription to the region while keeping
    /// what it sees.
    pub fn upsert_subscription(&mut self, session_id: PlayerSessionId, region: AoiRegion)
        requires
            old(self).wf(),
        ensures
            final(self).wf(),
            final(self).spec_map() == old(self).spec_map().insert(session_id, (region,
                if old(self).spec_map().contains_key(session_id) { old(self).spec_map()[session_id].1 } else { Seq::empty() })),
    {
        let ghost s0 = self.subscriptions@;
        let i = self.lower_bound(session_id);
        if i < self.subscriptions.len() && self.subscriptions[i].session_id.0 == session_id.0 {
            let old_state = &self.subscriptions[i];
            let visible = old_state.visible_entities.clone();
            let updated = ClientInterestState { session_id, region, visible_entities: visible };
            proof {
                lemma_session_at(s0, i as int);
            }
            self.subscriptions.set(i, updated);
            proof {
                let s1 = self.subscriptions@;
                assert(subscriptions_ok(s1));
                assert forall|id: PlayerSessionId| has_session(s1, id) == has_session(s0, id) by {
                    if has_session(s0, id) {
                        let k = choose|k: int| 0 <= k < s0.len() && s0[k].session_id == id;
                        assert(s1[k].session_id == id);
                    }
                    if has_session(s1, id) {
                        let k = choose|k: int| 0 <= k < s1.len() && s1[k].session_id == id;
                        assert(s0[k].session_id == id);
                    }
                }
                assert forall|id: PlayerSessionId| #[trigger] has_session(s1, id) implies subscription_map(s1)[id]
                    == subscription_map(s0).insert(session_id, (region, subscription_map(s0)[session_id].1))[id] by {
                    let k = choose|k: int| 0 <= k < s1.len() && s1[k].session_id == id;
                    lemma_session_at(s1, k);
                    lemma_session_at(s0, k);
                }
                assert(subscription_map(s1) =~= subscription_map(s0).insert(session_id, (region, subscription_map(s0)[session_id].1)));
            }
        } else {
            let fresh = ClientInterestState::new(session_id, region);
            self.subscriptions.insert(i, fresh);
            proof {
                let s1 = self.subscriptions@;
                assert(s1 == s0.insert(i as int, fresh));
                assert forall|a: int, b: int| 0 <= a < b < s1.len() implies s1[a].session_id.0 < s1[b].session_id.0 by {
                    if b < i {
                    } else if b == i {
                    } else if a < i {
                    } else if a == i {
                        assert(s1[b] == s0[b - 1]);
                    } else {
                    }
                }
                assert forall|a: int| 0 <= a < s1.len() implies ids_sorted(#[trigger] s1[a].spec_visible()) by {
                    if a < i {
                        assert(s1[a] == s0[a]);
                    } else if a > i {
                        assert(s1[a] == s0[a - 1]);
                    }
                }
                assert forall|id: PlayerSessionId| has_session(s1, id) == (has_session(s0, id) || id == session_id) by {
                    if has_session(s0, id) {
                        let k = choose|k: int| 0 <= k < s0.len() && s0[k].session_id == id;
                        if k < i {
                            assert(s1[k].session_id == id);
                        } else {
                            assert(s1[k + 1].session_id == id);
                        }
                    }
                    if id == session_id {
                        assert(s1[i as int].session_id == id);
                    }
                    if has_session(s1, id) {
                        let k = choose|k: int| 0 <= k < s1.len() && s1[k].session_id == id;
                        if k < i {
                            assert(s0[k].session_id == id);
                        } else if k > i {
                            assert(s0[k - 1].session_id == id);
                        }
                    }
                }
                assert forall|id: PlayerSessionId| #[trigger] has_session(s1, id) implies subscription_map(s1)[id]
                    == subscription_map(s0).insert(session_id, (region, Seq::<EntityId>::empty()))[id] by {
                    let k = choose|k: int| 0 <= k < s1.len() && s1[k].session_id == id;
                    lemma_session_at(s1, k);
                    if k < i {
                        assert(s1[k] == s0[k]);
                        lemma_session_at(s0, k);
                    } else if k > i {
                        assert(s1[k] == s0[k - 1]);
                        lemma_session_at(s0, k - 1);
                    }
                }
                assert(subscription_map(s1) =~= subscription_map(s0).insert(session_id, (region, Seq::<EntityId>::empty())));
            }
        }
    }

    /// Removes a session's subscription and returns it.
    pub fn remove_subscription(&mut self, session_id: PlayerSessionId) -> (r: Option<ClientInterestState>)
        requires
            old(self).wf(),
        ensures
            final(self).wf(),
            final(self).spec_map() == old(self).spec_map().remove(session_id),
            r is Some <==> old(self).spec_map().contains_key(session_id),
            r is Some ==> r->Some_0.spec_session() == session_id
                && (r->Some_0.spec_region(), r->Some_0.spec_visible()) == old(self).spec_map()[session_id],
    {
        let ghost s0 = self.subscriptions@;
        let i = self.lower_bound(session_id);
        if i < self.subscriptions.len() && self.subscriptions[i].session_id.0 == session_id.0 {
            proof {
                lemma_session_at(s0, i as int);
            }
            let removed = self.subscriptions.remove(i);
            proof {
                let s1 = self.subscriptions@;
                assert(s1 == s0.remove(i as int));
                assert forall|a: int, b: int| 0 <= a < b < s1.len() implies s1[a].session_id.0 < s1[b].session_id.0 by {
                    if a >= i {
                        assert(s1[a] == s0[a + 1]);
                    }
                    if b >= i {
                        assert(s1[b] == s0[b + 1]);
                    }
                }
                assert forall|a: int| 0 <= a < s1.len() implies ids_sorted(#[trigger] s1[a].spec_visible()) by {
                    if a >= i {
                        assert(s1[a] == s0[a + 1]);
                    }
                }
                assert forall|id: PlayerSessionId| has_session(s1, id) == (has_session(s0, id) && id != session_id) by {
                    if has_session(s1, id) {
                        let k = choose|k: int| 0 <= k < s1.len() && s1[k].session_id == id;
                        if k < i {
                            assert(s0[k].session_id == id);
                            assert(s0[k].session_id.0 < s0[i as int].session_id.0);
                        } else {
                            assert(s0[k + 1].session_id == id);
                            assert(s0[i as int].session_id.0 < s0[k + 1].session_id.0);
                        }
                    }
                    if has_session(s0, id) && id != session_id {
                        let k = choose|k: int| 0 <= k < s0.len() && s0[k].session_id == id;
                        if k < i {
                            assert(s1[k].session_id == id);
                        } else {
                            assert(k != i);
                            assert(s1[k - 1].session_id == id);
                        }
                    }
                }
                assert forall|id: PlayerSessionId| #[trigger] has_session(s1, id) implies subscription_map(s1)[id] == subscription_map(s0)[id] by {
                    let k = choose|k: int| 0 <= k < s1.len() && s1[k].session_id == id;
                    lemma_session_at(s1, k);
                    if k < i {
                        lemma_session_at(s0, k);
                    } else {
                        assert(s1[k] == s0[k + 1]);
                        lemma_session_at(s0, k + 1);
                    }
                }
                assert(subscription_map(s1) =~= subscription_map(s0).remove(session_id));
            }
            Some(removed)
        } else {
            proof {
                assert(subscription_map(s0).remove(session_id) =~= subscription_map(s0));
            }
            None
        }
    }

    /// The subscription of a session, if any.
    pub fn subscription(&self, session_id: PlayerSessionId) -> (r: Option<&ClientInterestState>)
        requires
            self.wf(),
        ensures
            r is Some <==> self.spec_map().contains_key(session_id),
            r is Some ==> r->Some_0.spec_session() == session_id
                && (r->Some_0.spec_region(), r->Some_0.spec_visible()) == self.spec_map()[session_id],
    {
        let i = self.lower_bound(session_id);
        if i < self.subscriptions.len() && self.subscriptions[i].session_id.0 == session_id.0 {
            proof {
                lemma_session_at(self.subscriptions@, i as int);
            }
            Some(&self.subscriptions[i])
        } else {
            None
        }
    }

    /// Recomputes what a session sees from the grid and reports who entered and who left.
    pub fn refresh_subscription(&mut self, session_id: PlayerSessionId, grid: &SpatialGrid) -> (r: Option<InterestUpdate>)
        requires
            old(self).wf(),
            grid.wf(),
            old(self).spec_map().contains_key(session_id) ==> region_in_range(old(self).spec_map()[session_id].0),
        ensures
            final(self).wf(),
            r is Some <==> old(self).spec_map().contains_key(session_id),
            r is None ==> final(self).spec_map() == old(self).spec_map(),
            r is Some ==> ({
                let u = r->Some_0;
                let (region, before) = old(self).spec_map()[session_id];
                &&& u.session_id == session_id
                &&& u.region == region
                &&& ids_sorted(u.visible_entities@)
                &&& forall|id: EntityId| #[trigger] u.visible_entities@.contains(id) <==> region_visible(region, *grid, id)
                &&& ids_sorted(u.entered_entities@)
                &&& forall|id: EntityId| #[trigger] u.entered_entities@.contains(id) <==> (u.visible_entities@.contains(id) && !before.contains(id))
                &&& ids_sorted(u.left_entities@)
                &&& forall|id: EntityId| #[trigger] u.left_entities@.contains(id) <==> (before.contains(id) && !u.visible_entities@.contains(id))
                &&& final(self).spec_map() == old(self).spec_map().insert(session_id, (region, u.visible_entities@))
            }),
    {
        let ghost s0 = self.subscriptions@;
        let i = self.lower_bound(session_id);
        if !(i < self.subscriptions.len() && self.subscriptions[i].session_id.0 == session_id.0) {
            return None;
        }
        proof {
            lemma_session_at(s0, i as int);
            assert(s0[i as int].session_id == session_id);
            assert(subscription_map(s0).contains_key(session_id));
        }
        let region = self.subscriptions[i].region;
        let next_visible = visible_entities_for_region(region, grid);
        let entered = id_difference(&next_visible, &self.subscriptions[i].visible_entities);
        let left = id_difference(&self.subscriptions[i].visible_entities, &next_visible);
        let updated = ClientInterestState { session_id, region, visible_entities: next_visible.clone() };
        self.subscriptions.set(i, updated);
        proof {
            let s1 = self.subscriptions@;
            assert(subscriptions_ok(s1));
            assert forall|id: PlayerSessionId| has_session(s1, id) == has_session(s0, id) by {
                if has_session(s0, id) {
                    let k = choose|k: int| 0 <= k < s0.len() && s0[k].session_id == id;
                    assert(s1[k].session_id == id);
                }
                if has_session(s1, id) {
                    let k = choose|k: int| 0 <= k < s1.len() && s1[k].session_id == id;
                    assert(s0[k].session_id == id);
                }
            }
            assert forall|id: PlayerSessionId| #[trigger] has_session(s1, id) implies subscription_map(s1)[id]
                == subscription_map(s0).insert(session_id, (region, next_visible@))[id] by {
                let k = choose|k: int| 0 <= k < s1.len() && s1[k].session_id == id;
                lemma_session_at(s1, k);
                lemma_session_at(s0, k);
            }
            assert(subscription_map(s1) =~= subscription_map(s0).insert(session_id, (region, next_visible@)));
        }
        Some(InterestUpdate { session_id, region, visible_entities: next_visible, entered_entities: entered, left_entities: left })
    }
}

/// The last entity in the list with the given id.
pub open spec fn last_entity(es: Seq<EntityState>, id: EntityId) -> Option<EntityState>
    decreases es.len(),
{
    if es.len() == 0 {
        None
    } else if es.last().entity_id == id {
        Some(es.last())
    } else {
        last_entity(es.drop_last(), id)
    }
}

/// Finds the last entity in the list with the given id.
fn find_last_entity(entities: &Vec<EntityState>, id: EntityId) -> (r: Option<EntityState>)
    ensures
        r == last_entity(entities@, id),
{
    let mut k: usize = entities.len();
    assert(entities@.take(k as int) == entities@);
    while k > 0
        invariant
            k <= entities@.len(),
            last_entity(entities@, id) == last_entity(entities@.take(k as int), id),
        decreases k,
    {
        let e = entities[k - 1];
        assert(entities@.take(k as int).drop_last() == entities@.take(k - 1));
        if e.entity_id == id {
            return Some(e);
        }
        k -= 1;
    }
    None
}

/// The entities of the given ids that appear in the list (the last entry of each), in id order.
pub open spec fn entities_for_ids(es: Seq<EntityState>, ids: Seq<EntityId>) -> Seq<EntityState>
    decreases ids.len(),
{
    if ids.len() == 0 {
        Seq::empty()
    } else {
        let prev = entities_for_ids(es, ids.drop_last());
        match last_entity(es, ids.last()) {
            Some(e) => prev.push(e),
            None => prev,
        }
    }
}

/// A delta snapshot for an interest update: the visible entities found in `entities`, and the
/// ids that left the region as removals.
pub fn build_visible_delta_snapshot(
    update: &InterestUpdate,
    entities: &Vec<EntityState>,
    snapshot_id: u64,
    baseline_snapshot_id: u64,
    tick: Tick,
) -> (r: Snapshot)
    ensures
        r.snapshot_id == snapshot_id,
        r.baseline_snapshot_id == baseline_snapshot_id,
        r.tick == tick,
        r.entities@ == entities_for_ids(entities@, update.visible_entities@),
        r.removed_entities@ == update.left_entities@,
{
    let mut builder = SnapshotBuilder::delta(snapshot_id, baseline_snapshot_id, tick);
    let mut i: usize = 0;
    while i < update.visible_entities.len()
        invariant
            i <= update.visible_entities@.len(),
            builder.spec_snapshot_id() == snapshot_id,
            builder.spec_baseline() == baseline_snapshot_id,
            builder.spec_tick() == tick,
            builder.spec_entities() == entities_for_ids(entities@, update.visible_entities@.take(i as int)),
            builder.spec_removed() == Seq::<EntityId>::empty(),
        decreases update.visible_entities@.len() - i,
    {
        let id = update.visible_entities[i];
        assert(update.visible_entities@.take(i + 1).drop_last() == update.visible_entities@.take(i as int));
        match find_last_entity(entities, id) {
            Some(e) => builder.push_entity(e),
            None => {},
        }
        i += 1;
    }
    assert(update.visible_entities@.take(update.visible_entities@.len() as int) == update.visible_entities@);
    let mut j: usize = 0;
    while j < update.left_entities.len()
        invariant
            j <= update.left_entities@.len(),
            builder.spec_snapshot_id() == snapshot_id,
            builder.spec_baseline() == baseline_snapshot_id,
            builder.spec_tick() == tick,
            builder.spec_entities() == entities_for_ids(entities@, update.visible_entities@),
            builder.spec_removed() == update.left_entities@.take(j as int),
        decreases update.left_entities@.len() - j,
    {
        builder.push_removed(update.left_entities[j]);
        assert(update.left_entities@.take(j + 1) == update.left_entities@.take(j as int).push(update.left_entities@[j as int]));
        j += 1;
    }
    assert(update.left_entities@.take(update.left_entities@.len() as int) == update.left_entities@);
    builder.build()
}

/// (count, smallest id, faction bits, OR of flags) of the listed ids that appear in `es`.
pub open spec fn far_cell_summary(es: Seq<EntityState>, ids: Seq<EntityId>) -> (int, Option<EntityId>, u64, u32)
    decreases ids.len(),
{
    if ids.len() == 0 {
        (0, None, 0, 0)
    } else {
        let prev = far_cell_summary(es, ids.drop_last());
        let id = ids.last();
        match last_entity(es, id) {
            None => prev,
            Some(e) => (
                prev.0 + 1,
                Some(match prev.1 {
                    None => id,
                    Some(c) => if c.0 <= id.0 { c } else { id },
                }),
                if e.faction_id < 64 { prev.2 | (1u64 << e.faction_id) } else { prev.2 },
                prev.3 | e.flags,
            ),
        }
    }
}

/// The far-state aggregates of the first `k` occupied cells of the grid: one per occupied cell
/// outside the visible region holding an entity from `es`.
pub open spec fn far_states(region: AoiRegion, grid: SpatialGrid, es: Seq<EntityState>, k: int) -> Seq<AggregateFarState>
    decreases k,
{
    if k <= 0 {
        Seq::empty()
    } else {
        let prev = far_states(region, grid, es, k - 1);
        let c = grid.spec_cells()[k - 1];
        let ids = grid.members(c);
        if region_contains(region, c) || ids.len() == 0 {
            prev
        } else {
            let s = far_cell_summary(es, ids);
            match s.1 {
                None => prev,
                Some(rep) => prev.push(AggregateFarState {
                    cell: c,
                    entity_count: (if s.0 > u32::MAX { u32::MAX as int } else { s.0 }) as u32,
                    representative_entity_id: rep,
                    faction_mask: s.2,
                    flags_or: s.3,
                }),
            }
        }
    }
}

/// Summaries of the occupied cells outside the visible region, in ascending cell order.
pub fn aggregate_far_state(visible_region: AoiRegion, grid: &SpatialGrid, entities: &Vec<EntityState>) -> (r: Vec<AggregateFarState>)
    requires
        grid.wf(),
    ensures
        r@ == far_states(visible_region, *grid, entities@, grid.spec_cells().len() as int),
{
    let occupied = grid.occupied_cells();
    let mut aggregate: Vec<AggregateFarState> = Vec::new();
    let mut k: usize = 0;
    while k < occupied.len()
        invariant
            grid.wf(),
            occupied@.len() == grid.spec_cells().len(),
            forall|i: int| 0 <= i < occupied@.len() ==> (#[trigger] occupied@[i]).0 == grid.spec_cells()[i] && occupied@[i].1@ == grid.members(occupied@[i].0),
            k <= occupied@.len(),
            aggregate@ == far_states(visible_region, *grid, entities@, k as int),
        decreases occupied@.len() - k,
    {
        let cell = occupied[k].0;
        let ids = &occupied[k].1;
        if !visible_region.contains_cell(cell) && ids.len() > 0 {
            let mut count: u32 = 0;
            let mut representative: Option<EntityId> = None;
            let mut faction_mask: u64 = 0;
            let mut flags_or: u32 = 0;
            let mut m: usize = 0;
            while m < ids.len()
                invariant
                    m <= ids@.len(),
                    ({
                        let s = far_cell_summary(entities@, ids@.take(m as int));
                        &&& count == (if s.0 > u32::MAX { u32::MAX as int } else { s.0 })
                        &&& s.0 >= 0
                        &&& representative == s.1
                        &&& faction_mask == s.2
                        &&& flags_or == s.3
                    }),
                decreases ids@.len() - m,
            {
                let id = ids[m];
                assert(ids@.take(m + 1).drop_last() == ids@.take(m as int));
                match find_last_entity(entities, id) {
                    None => {},
                    Some(e) => {
                        if count < u32::MAX {
                            count = count + 1;
                        }
                        representative = Some(match representative {
                            None => id,
                            Some(c) => if c.0 <= id.0 { c } else { id },
                        });
                        if e.faction_id < 64 {
                            faction_mask = faction_mask | (1u64 << e.faction_id);
                        }
                        flags_or = flags_or | e.flags;
                    },
                }
                m += 1;
            }
            assert(ids@.take(ids@.len() as int) == ids@);
            match representative {
                Some(rep) => {
                    aggregate.push(AggregateFarState {
                        cell,
                        entity_count: count,
                        representative_entity_id: rep,
                        faction_mask,
                        flags_or,
                    });
                },
                None => {},
            }
        }
        k += 1;
    }
    aggregate
}

/// A visible delta snapshot paired with the far-state aggregates outside the region.
pub fn build_interest_snapshot_delta(
    update: &InterestUpdate,
    entities: &Vec<EntityState>,
    grid: &SpatialGrid,
    snapshot_id: u64,
    baseline_snapshot_id: u64,
    tick: Tick,
) -> (r: InterestSnapshotDelta)
    requires
        grid.wf(),
    ensures
        r.snapshot.snapshot_id == snapshot_id,
        r.snapshot.baseline_snapshot_id == baseline_snapshot_id,
        r.snapshot.tick == tick,
        r.snapshot.entities@ == entities_for_ids(entities@, update.visible_entities@),
        r.snapshot.removed_entities@ == update.left_entities@,
        r.aggregate_far_state@ == far_states(update.region, *grid, entities@, grid.spec_cells().len() as int),
{
    let snapshot = build_visible_delta_snapshot(update, entities, snapshot_id, baseline_snapshot_id, tick);
    let aggregate_far_state = aggregate_far_state(update.region, grid, entities);
    InterestSnapshotDelta { snapshot, aggregate_far_state }
}

} // verus!
