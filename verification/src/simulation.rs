use vstd::prelude::*;

use crate::arith::{clamp_i32, div_euclid_i32, sat_add_i32};
use crate::sorted::{find_key, lemma_insert_keeps_increasing, lower_bound, strictly_increasing};

verus! {

pub const SERVER_TICK_HZ: u32 = 20;

pub const SERVER_TICK_MILLIS: u64 = 50;

#[derive(Debug, Clone, Copy, PartialEq, Eq, Structural)]
pub struct Tick(pub u64);

#[derive(Debug, Clone, Copy, PartialEq, Eq, PartialOrd, Ord, Structural)]
pub struct EntityId(pub u64);

#[derive(Debug, Clone, Copy, PartialEq, Eq, PartialOrd, Ord, Structural)]
pub struct PlayerSessionId(pub u64);

#[derive(Debug, Clone, Copy, PartialEq, Eq, Structural)]
pub struct WorldPosition {
    pub x_mm: i32,
    pub y_mm: i32,
}

#[derive(Debug, Clone, Copy, PartialEq, Eq, Structural)]
pub struct MovementDelta {
    pub dx_mm: i32,
    pub dy_mm: i32,
}

#[derive(Debug, Clone, Copy, PartialEq, Eq, Structural)]
pub struct EntityState {
    pub entity_id: EntityId,
    pub entity_kind: u16,
    pub faction_id: u16,
    pub flags: u32,
    pub position: WorldPosition,
    pub facing_millirad: i32,
    pub health_q8: u16,
    pub state_id: u16,
    pub state_param_q8: i16,
}

/// A position moved by a delta, each axis saturating at the bounds of `i32`.
pub open spec fn moved_position(p: WorldPosition, d: MovementDelta) -> WorldPosition {
    WorldPosition {
        x_mm: clamp_i32(p.x_mm + d.dx_mm) as i32,
        y_mm: clamp_i32(p.y_mm + d.dy_mm) as i32,
    }
}

/// Moves a position by a delta, each axis saturating at the bounds of `i32`.
pub fn move_position(p: WorldPosition, d: MovementDelta) -> (r: WorldPosition)
    ensures
        r == moved_position(p, d),
{
    WorldPosition { x_mm: sat_add_i32(p.x_mm, d.dx_mm), y_mm: sat_add_i32(p.y_mm, d.dy_mm) }
}

impl EntityState {
    pub fn apply_movement_stub(&mut self, delta: MovementDelta)
        ensures
            *final(self) == (EntityState { position: moved_position(old(self).position, delta), ..*old(self) }),
    {
        self.position = move_position(self.position, delta);
    }
}

/// The entities stored column by column: one vector per field, all of one length.
#[derive(Debug, Clone, PartialEq, Eq)]
pub struct EntityColumns {
    entity_ids: Vec<EntityId>,
    entity_kinds: Vec<u16>,
    faction_ids: Vec<u16>,
    flags: Vec<u32>,
    x_mm: Vec<i32>,
    y_mm: Vec<i32>,
    facing_millirad: Vec<i32>,
    health_q8: Vec<u16>,
    state_ids: Vec<u16>,
    state_param_q8: Vec<i16>,
}

impl View for EntityColumns {
    type V = Seq<EntityState>;

    closed spec fn view(&self) -> Seq<EntityState> {
        Seq::new(
            self.entity_ids@.len(),
            |i: int|
                EntityState {
                    entity_id: self.entity_ids@[i],
                    entity_kind: self.entity_kinds@[i],
                    faction_id: self.faction_ids@[i],
                    flags: self.flags@[i],
                    position: WorldPosition { x_mm: self.x_mm@[i], y_mm: self.y_mm@[i] },
                    facing_millirad: self.facing_millirad@[i],
                    health_q8: self.health_q8@[i],
                    state_id: self.state_ids@[i],
                    state_param_q8: self.state_param_q8@[i],
                },
        )
    }
}

impl EntityColumns {
    /// All columns have the same length.
    pub closed spec fn wf(&self) -> bool {
        let n = self.entity_ids@.len();
        &&& self.entity_kinds@.len() == n
        &&& self.faction_ids@.len() == n
        &&& self.flags@.len() == n
        &&& self.x_mm@.len() == n
        &&& self.y_mm@.len() == n
        &&& self.facing_millirad@.len() == n
        &&& self.health_q8@.len() == n
        &&& self.state_ids@.len() == n
        &&& self.state_param_q8@.len() == n
    }

    pub fn new() -> (r: Self)
        ensures
            r.wf(),
            r@ == Seq::<EntityState>::empty(),
    {
        Self::with_capacity(0)
    }

    pub fn with_capacity(capacity: usize) -> (r: Self)
        ensures
            r.wf(),
            r@ == Seq::<EntityState>::empty(),
    {
        let r = Self {
            entity_ids: Vec::with_capacity(capacity),
            entity_kinds: Vec::with_capacity(capacity),
            faction_ids: Vec::with_capacity(capacity),
            flags: Vec::with_capacity(capacity),
            x_mm: Vec::with_capacity(capacity),
            y_mm: Vec::with_capacity(capacity),
            facing_millirad: Vec::with_capacity(capacity),
            health_q8: Vec::with_capacity(capacity),
            state_ids: Vec::with_capacity(capacity),
            state_param_q8: Vec::with_capacity(capacity),
        };
        assert(r@ =~= Seq::<EntityState>::empty());
        r
    }

    pub fn push(&mut self, entity: EntityState) -> (index: usize)
        requires
            old(self).wf(),
        ensures
            final(self).wf(),
            final(self)@ == old(self)@.push(entity),
            index == old(self)@.len(),
    {
        let index = self.entity_ids.len();
        self.entity_ids.push(entity.entity_id);
        self.entity_kinds.push(entity.entity_kind);
        self.faction_ids.push(entity.faction_id);
        self.flags.push(entity.flags);
        self.x_mm.push(entity.position.x_mm);
        self.y_mm.push(entity.position.y_mm);
        self.facing_millirad.push(entity.facing_millirad);
        self.health_q8.push(entity.health_q8);
        self.state_ids.push(entity.state_id);
        self.state_param_q8.push(entity.state_param_q8);
        assert(self@ =~= old(self)@.push(entity));
        index
    }

    pub fn len(&self) -> (r: usize)
        requires
            self.wf(),
        ensures
            r == self@.len(),
    {
        self.entity_ids.len()
    }

    pub fn is_empty(&self) -> (r: bool)
        requires
            self.wf(),
        ensures
            r == (self@.len() == 0),
    {
        self.entity_ids.len() == 0
    }

    pub fn entity_id(&self, index: usize) -> (r: Option<EntityId>)
        requires
            self.wf(),
        ensures
            r == (if index < self@.len() { Some(self@[index as int].entity_id) } else { None::<EntityId> }),
    {
        if index < self.entity_ids.len() {
            Some(self.entity_ids[index])
        } else {
            None
        }
    }

    pub fn position(&self, index: usize) -> (r: Option<WorldPosition>)
        requires
            self.wf(),
        ensures
            r == (if index < self@.len() { Some(self@[index as int].position) } else { None::<WorldPosition> }),
    {
        if index < self.entity_ids.len() {
            Some(WorldPosition { x_mm: self.x_mm[index], y_mm: self.y_mm[index] })
        } else {
            None
        }
    }

    pub fn apply_movement_stub(&mut self, index: usize, delta: MovementDelta) -> (r: bool)
        requires
            old(self).wf(),
        ensures
            final(self).wf(),
            r == (index < old(self)@.len()),
            final(self)@ == (if r {
                old(self)@.update(
                    index as int,
                    EntityState {
                        position: moved_position(old(self)@[index as int].position, delta),
                        ..old(self)@[index as int]
                    },
                )
            } else {
                old(self)@
            }),
    {
        if index >= self.entity_ids.len() {
            return false;
        }
        let x = sat_add_i32(self.x_mm[index], delta.dx_mm);
        let y = sat_add_i32(self.y_mm[index], delta.dy_mm);
        self.x_mm.set(index, x);
        self.y_mm.set(index, y);
        assert(self@ =~= old(self)@.update(
            index as int,
            EntityState {
                position: moved_position(old(self)@[index as int].position, delta),
                ..old(self)@[index as int]
            },
        ));
        true
    }

    pub fn entity(&self, index: usize) -> (r: Option<EntityState>)
        requires
            self.wf(),
        ensures
            r == (if index < self@.len() { Some(self@[index as int]) } else { None::<EntityState> }),
    {
        if index >= self.entity_ids.len() {
            return None;
        }
        Some(
            EntityState {
                entity_id: self.entity_ids[index],
                entity_kind: self.entity_kinds[index],
                faction_id: self.faction_ids[index],
                flags: self.flags[index],
                position: WorldPosition { x_mm: self.x_mm[index], y_mm: self.y_mm[index] },
                facing_millirad: self.facing_millirad[index],
                health_q8: self.health_q8[index],
                state_id: self.state_ids[index],
                state_param_q8: self.state_param_q8[index],
            },
        )
    }

    /// Every entity, in storage order.
    pub fn iter_entities(&self) -> (r: Vec<EntityState>)
        requires
            self.wf(),
        ensures
            r@ == self@,
    {
        let mut out: Vec<EntityState> = Vec::new();
        let n = self.entity_ids.len();
        for index in 0..n
            invariant
                n == self@.len(),
                self.wf(),
                out@ == self@.subrange(0, index as int),
        {
            let e = self.entity(index).unwrap();
            out.push(e);
            assert(out@ =~= self@.subrange(0, index + 1));
        }
        assert(out@ =~= self@);
        out
    }
}

#[derive(Debug, Clone, Copy, PartialEq, Eq, PartialOrd, Ord, Structural)]
pub struct SpatialCell {
    pub x: i32,
    pub y: i32,
}

/// The grid cell holding a position: floor division of each axis by the cell size.
pub open spec fn cell_of(position: WorldPosition, cell_size_mm: int) -> SpatialCell {
    SpatialCell {
        x: (position.x_mm as int / cell_size_mm) as i32,
        y: (position.y_mm as int / cell_size_mm) as i32,
    }
}

/// Computes the grid cell holding a position.
pub fn cell_for(position: WorldPosition, cell_size_mm: i32) -> (r: SpatialCell)
    requires
        cell_size_mm > 0,
    ensures
        r == cell_of(position, cell_size_mm as int),
{
    SpatialCell {
        x: div_euclid_i32(position.x_mm, cell_size_mm),
        y: div_euclid_i32(position.y_mm, cell_size_mm),
    }
}

/// The ids of the entities whose position lies in `cell`, in storage order.
pub open spec fn ids_in_cell(s: Seq<EntityState>, cell_size_mm: int, cell: SpatialCell) -> Seq<EntityId>
    decreases s.len(),
{
    if s.len() == 0 {
        Seq::empty()
    } else {
        let prev = ids_in_cell(s.drop_last(), cell_size_mm, cell);
        if cell_of(s.last().position, cell_size_mm) == cell {
            prev.push(s.last().entity_id)
        } else {
            prev
        }
    }
}

/// The cells that hold at least one of the entities.
pub open spec fn occupied_set(s: Seq<EntityState>, cell_size_mm: int) -> Set<SpatialCell> {
    Set::new(|c: SpatialCell| exists|i: int| 0 <= i < s.len() && cell_of(s[i].position, cell_size_mm) == c)
}

/// A cell lists an entity exactly when some entity lies in it.
proof fn lemma_ids_in_cell_nonempty(s: Seq<EntityState>, cell_size_mm: int, c: SpatialCell)
    ensures
        ids_in_cell(s, cell_size_mm, c).len() > 0 <==> occupied_set(s, cell_size_mm).contains(c),
    decreases s.len(),
{
    if s.len() > 0 {
        let t = s.drop_last();
        lemma_ids_in_cell_nonempty(t, cell_size_mm, c);
        if occupied_set(t, cell_size_mm).contains(c) {
            let i = choose|i: int| 0 <= i < t.len() && cell_of(t[i].position, cell_size_mm) == c;
            assert(s[i] == t[i]);
        }
        if occupied_set(s, cell_size_mm).contains(c) && cell_of(s.last().position, cell_size_mm) != c {
            let i = choose|i: int| 0 <= i < s.len() && cell_of(s[i].position, cell_size_mm) == c;
            assert(i < s.len() - 1);
            assert(t[i] == s[i]);
        }
    }
}

/// The position of a cell in the total order of cells (by `x`, then by `y`).
pub open spec fn cell_key(c: SpatialCell) -> int {
    (c.x + 0x8000_0000) * 0x1_0000_0000 + (c.y + 0x8000_0000)
}

/// Computes the order key of a cell.
pub fn cell_key_of(c: SpatialCell) -> (r: u64)
    ensures
        r == cell_key(c),
{
    let a: u64 = (c.x as i64 + 0x8000_0000i64) as u64;
    let b: u64 = (c.y as i64 + 0x8000_0000i64) as u64;
    proof {
        assert(a * 0x1_0000_0000 + b <= 0xffff_ffff_ffff_ffff) by (nonlinear_arith)
            requires a <= 0xffff_ffff, b <= 0xffff_ffff;
    }
    a * 0x1_0000_0000u64 + b
}

/// Cell keys are distinct for distinct cells and ordered by `x`, then `y`.
pub proof fn lemma_cell_key(a: SpatialCell, b: SpatialCell)
    ensures
        cell_key(a) == cell_key(b) <==> a == b,
        cell_key(a) < cell_key(b) <==> (a.x < b.x || (a.x == b.x && a.y < b.y)),
        0 <= cell_key(a) <= u64::MAX,
{
    let ax = a.x + 0x8000_0000;
    let ay = a.y + 0x8000_0000;
    let bx = b.x + 0x8000_0000;
    let by = b.y + 0x8000_0000;
    assert(0 <= ax < 0x1_0000_0000 && 0 <= ay < 0x1_0000_0000);
    assert(0 <= bx < 0x1_0000_0000 && 0 <= by < 0x1_0000_0000);
    assert(ax < bx ==> ax * 0x1_0000_0000 + ay < bx * 0x1_0000_0000 + by) by (nonlinear_arith)
        requires 0 <= ay < 0x1_0000_0000, 0 <= by < 0x1_0000_0000;
    assert(bx < ax ==> bx * 0x1_0000_0000 + by < ax * 0x1_0000_0000 + ay) by (nonlinear_arith)
        requires 0 <= ay < 0x1_0000_0000, 0 <= by < 0x1_0000_0000;
    assert(0 <= ax * 0x1_0000_0000 + ay <= u64::MAX) by (nonlinear_arith)
        requires 0 <= ax < 0x1_0000_0000, 0 <= ay < 0x1_0000_0000;
}

/// A uniform grid that buckets entity ids by cell, with the cells kept in ascending order.
#[derive(Debug, Clone, PartialEq, Eq)]
pub struct SpatialGrid {
    cell_size_mm: i32,
    keys: Vec<u64>,
    cells: Vec<SpatialCell>,
    buckets: Vec<Vec<EntityId>>,
}

impl SpatialGrid {
    /// The cell size is positive, cells are stored once each in ascending order, and every
    /// stored bucket is non-empty.
    pub closed spec fn wf(&self) -> bool {
        &&& self.cell_size_mm > 0
        &&& self.keys@.len() == self.cells@.len()
        &&& self.keys@.len() == self.buckets@.len()
        &&& forall|i: int| 0 <= i < self.keys@.len() ==> self.keys@[i] == cell_key(#[trigger] self.cells@[i])
        &&& strictly_increasing(self.keys@)
        &&& forall|i: int| 0 <= i < self.buckets@.len() ==> (#[trigger] self.buckets@[i])@.len() > 0
    }

    pub closed spec fn spec_cell_size(&self) -> int {
        self.cell_size_mm as int
    }

    /// The occupied cells, in ascending order.
    pub closed spec fn spec_cells(&self) -> Seq<SpatialCell> {
        self.cells@
    }

    /// The ids stored for a cell (empty when the cell is unoccupied).
    pub closed spec fn members(&self, cell: SpatialCell) -> Seq<EntityId> {
        if exists|i: int| 0 <= i < self.cells@.len() && self.cells@[i] == cell {
            self.buckets@[choose|i: int| 0 <= i < self.cells@.len() && self.cells@[i] == cell]@
        } else {
            Seq::empty()
        }
    }

    proof fn lemma_members_at(&self, i: int)
        requires
            self.wf(),
            0 <= i < self.cells@.len(),
        ensures
            self.members(self.cells@[i]) == self.buckets@[i]@,
    {
        let c = self.cells@[i];
        let j = choose|j: int| 0 <= j < self.cells@.len() && self.cells@[j] == c;
        if j != i {
            lemma_cell_key(self.cells@[i], self.cells@[j]);
            assert(self.keys@[i] != self.keys@[j]);
        }
    }

    /// A grid holding the entities of a list stores one cell for each occupied cell.
    pub proof fn lemma_occupied_count(&self, es: Seq<EntityState>)
        requires
            self.wf(),
            forall|c: SpatialCell| #[trigger] self.members(c) == ids_in_cell(es, self.spec_cell_size(), c),
        ensures
            self.spec_cells().len() == occupied_set(es, self.spec_cell_size()).len(),
    {
        let cells = self.cells@;
        let set = occupied_set(es, self.spec_cell_size());
        assert(cells.no_duplicates()) by {
            assert forall|p: int, q: int| 0 <= p < cells.len() && 0 <= q < cells.len() && p != q implies cells[p] != cells[q] by {
                lemma_cell_key(cells[p], cells[q]);
                if p < q {
                    assert(self.keys@[p] < self.keys@[q]);
                } else {
                    assert(self.keys@[q] < self.keys@[p]);
                }
            }
        }
        assert(cells.to_set() =~= set) by {
            assert forall|c: SpatialCell| cells.to_set().contains(c) <==> set.contains(c) by {
                lemma_ids_in_cell_nonempty(es, self.spec_cell_size(), c);
                if cells.contains(c) {
                    let i = choose|i: int| 0 <= i < cells.len() && cells[i] == c;
                    self.lemma_members_at(i);
                    assert(self.members(c).len() > 0);
                }
                if set.contains(c) {
                    assert(self.members(c).len() > 0);
                    if !cells.contains(c) {
                        assert(!(exists|i: int| 0 <= i < self.cells@.len() && self.cells@[i] == c));
                    }
                }
            }
        }
        cells.unique_seq_to_set();
    }

    proof fn lemma_members_absent(&self, c: SpatialCell)
        requires
            self.wf(),
            !self.keys@.contains(cell_key(c) as u64),
        ensures
            self.members(c) == Seq::<EntityId>::empty(),
    {
        lemma_cell_key(c, c);
        if exists|i: int| 0 <= i < self.cells@.len() && self.cells@[i] == c {
            let i = choose|i: int| 0 <= i < self.cells@.len() && self.cells@[i] == c;
            assert(self.keys@[i] == cell_key(c));
            assert(self.keys@.contains(self.keys@[i]));
        }
    }

    /// The occupied cells are exactly those with a non-empty bucket.
    pub proof fn lemma_occupied(&self, c: SpatialCell)
        requires
            self.wf(),
        ensures
            self.spec_cells().contains(c) <==> self.members(c).len() > 0,
    {
        if self.spec_cells().contains(c) {
            let i = choose|i: int| 0 <= i < self.cells@.len() && self.cells@[i] == c;
            self.lemma_members_at(i);
        }
    }

    pub fn new(cell_size_mm: i32) -> (r: Self)
        requires
            cell_size_mm > 0,
        ensures
            r.wf(),
            r.spec_cell_size() == cell_size_mm,
            r.spec_cells() == Seq::<SpatialCell>::empty(),
            forall|c: SpatialCell| r.members(c) == Seq::<EntityId>::empty(),
    {
        Self { cell_size_mm, keys: Vec::new(), cells: Vec::new(), buckets: Vec::new() }
    }

    pub fn cell_size_mm(&self) -> (r: i32)
        ensures
            r == self.spec_cell_size(),
    {
        self.cell_size_mm
    }

    pub fn clear(&mut self)
        requires
            old(self).wf(),
        ensures
            final(self).wf(),
            final(self).spec_cell_size() == old(self).spec_cell_size(),
            final(self).spec_cells() == Seq::<SpatialCell>::empty(),
            forall|c: SpatialCell| final(self).members(c) == Seq::<EntityId>::empty(),
    {
        self.keys.clear();
        self.cells.clear();
        self.buckets.clear();
    }

    pub fn cell_for_position(&self, position: WorldPosition) -> (r: SpatialCell)
        requires
            self.wf(),
        ensures
            r == cell_of(position, self.spec_cell_size()),
    {
        cell_for(position, self.cell_size_mm)
    }

    /// Appends `id` to the bucket of `cell`, creating the bucket where the cell is new.
    fn add_to_cell(&mut self, cell: SpatialCell, id: EntityId)
        requires
            old(self).wf(),
        ensures
            final(self).wf(),
            final(self).spec_cell_size() == old(self).spec_cell_size(),
            final(self).members(cell) == old(self).members(cell).push(id),
            forall|c: SpatialCell| c != cell ==> #[trigger] final(self).members(c) == old(self).members(c),
    {
        let k = cell_key_of(cell);
        let i = lower_bound(&self.keys, k);
        if i < self.keys.len() && self.keys[i] == k {
            proof {
                lemma_cell_key(self.cells@[i as int], cell);
                self.lemma_members_at(i as int);
            }
            let mut bucket = self.buckets[i].clone();
            bucket.push(id);
            self.buckets.set(i, bucket);
            proof {
                self.lemma_members_at(i as int);
                assert forall|c: SpatialCell| c != cell implies #[trigger] self.members(c) == old(self).members(c) by {
                    if exists|j: int| 0 <= j < self.cells@.len() && self.cells@[j] == c {
                        let j = choose|j: int| 0 <= j < self.cells@.len() && self.cells@[j] == c;
                        self.lemma_members_at(j);
                        old(self).lemma_members_at(j);
                    } else {
                        assert(!(exists|j: int| 0 <= j < old(self).cells@.len() && old(self).cells@[j] == c));
                    }
                }
            }
        } else {
            proof {
                lemma_cell_key(cell, cell);
                assert forall|j: int| i <= j < self.keys@.len() implies self.keys@[j] > k by {
                    if j > i {
                        assert(self.keys@[i as int] < self.keys@[j]);
                    }
                }
                assert(!self.keys@.contains(k)) by {
                    if self.keys@.contains(k) {
                        let j = self.keys@.index_of(k);
                        assert(self.keys@[j] == k);
                    }
                }
                self.lemma_members_absent(cell);
                lemma_insert_keeps_increasing(self.keys@, i as int, k);
            }
            let mut bucket: Vec<EntityId> = Vec::new();
            bucket.push(id);
            self.keys.insert(i, k);
            self.cells.insert(i, cell);
            self.buckets.insert(i, bucket);
            proof {
                assert forall|j: int| 0 <= j < self.keys@.len() implies self.keys@[j] == cell_key(#[trigger] self.cells@[j]) by {
                    if j < i {
                    } else if j == i {
                    } else {
                        assert(old(self).keys@[j - 1] == cell_key(old(self).cells@[j - 1]));
                    }
                }
                assert forall|j: int| 0 <= j < self.buckets@.len() implies (#[trigger] self.buckets@[j])@.len() > 0 by {
                    if j < i {
                    } else if j == i {
                    } else {
                        assert(old(self).buckets@[j - 1]@.len() > 0);
                    }
                }
                self.lemma_members_at(i as int);
                assert(bucket@ =~= old(self).members(cell).push(id));
                assert forall|c: SpatialCell| c != cell implies #[trigger] self.members(c) == old(self).members(c) by {
                    if exists|j: int| 0 <= j < old(self).cells@.len() && old(self).cells@[j] == c {
                        let j = choose|j: int| 0 <= j < old(self).cells@.len() && old(self).cells@[j] == c;
                        old(self).lemma_members_at(j);
                        if j < i {
                            self.lemma_members_at(j);
                        } else {
                            assert(self.cells@[j + 1] == c);
                            self.lemma_members_at(j + 1);
                        }
                    } else {
                        if exists|j: int| 0 <= j < self.cells@.len() && self.cells@[j] == c {
                            let j = choose|j: int| 0 <= j < self.cells@.len() && self.cells@[j] == c;
                            if j < i {
                                assert(old(self).cells@[j] == c);
                            } else if j == i {
                            } else {
                                assert(old(self).cells@[j - 1] == c);
                            }
                        }
                    }
                }
            }
        }
    }

    pub fn rebuild(&mut self, entities: &EntityColumns)
        requires
            old(self).wf(),
            entities.wf(),
        ensures
            final(self).wf(),
            final(self).spec_cell_size() == old(self).spec_cell_size(),
            forall|c: SpatialCell|
                #[trigger] final(self).members(c) == ids_in_cell(entities@, old(self).spec_cell_size(), c),
    {
        self.clear();
        let n = entities.len();
        for index in 0..n
            invariant
                n == entities@.len(),
                entities.wf(),
                self.wf(),
                self.spec_cell_size() == old(self).spec_cell_size(),
                forall|c: SpatialCell|
                    #[trigger] self.members(c) == ids_in_cell(
                        entities@.subrange(0, index as int),
                        self.spec_cell_size(),
                        c,
                    ),
        {
            let e = entities.entity(index).unwrap();
            let cell = self.cell_for_position(e.position);
            let ghost g0 = *self;
            self.add_to_cell(cell, e.entity_id);
            proof {
                let s = entities@.subrange(0, index + 1);
                assert(s.drop_last() =~= entities@.subrange(0, index as int));
                assert(s.last() == e);
                assert forall|c: SpatialCell| #[trigger] self.members(c) == ids_in_cell(s, self.spec_cell_size(), c) by {
                    assert(g0.members(c) == ids_in_cell(entities@.subrange(0, index as int), self.spec_cell_size(), c));
                }
            }
        }
        assert(entities@.subrange(0, n as int) =~= entities@);
    }

    pub fn entities_in_cell(&self, cell: SpatialCell) -> (r: Vec<EntityId>)
        requires
            self.wf(),
        ensures
            r@ == self.members(cell),
    {
        let k = cell_key_of(cell);
        match find_key(&self.keys, k) {
            Some(i) => {
                proof {
                    lemma_cell_key(self.cells@[i as int], cell);
                    self.lemma_members_at(i as int);
                }
                self.buckets[i].clone()
            },
            None => {
                proof {
                    self.lemma_members_absent(cell);
                }
                Vec::new()
            },
        }
    }

    /// The occupied cells with their ids, in ascending cell order (by `x`, then by `y`).
    pub fn occupied_cells(&self) -> (r: Vec<(SpatialCell, Vec<EntityId>)>)
        requires
            self.wf(),
        ensures
            r@.len() == self.spec_cells().len(),
            forall|i: int| 0 <= i < r@.len() ==> (#[trigger] r@[i]).0 == self.spec_cells()[i] && r@[i].1@ == self.members(r@[i].0),
    {
        let mut out: Vec<(SpatialCell, Vec<EntityId>)> = Vec::new();
        let n = self.cells.len();
        for i in 0..n
            invariant
                n == self.cells@.len(),
                self.wf(),
                out@.len() == i,
                forall|j: int| 0 <= j < i ==> (#[trigger] out@[j]).0 == self.spec_cells()[j] && out@[j].1@ == self.members(out@[j].0),
        {
            proof {
                self.lemma_members_at(i as int);
            }
            out.push((self.cells[i], self.buckets[i].clone()));
        }
        out
    }

    /// The number of occupied cells.
    pub fn occupied_cell_count(&self) -> (r: usize)
        requires
            self.wf(),
        ensures
            r == self.spec_cells().len(),
    {
        self.cells.len()
    }
}

/// The occupied cells of a grid are in strictly ascending order.
pub proof fn lemma_grid_cells_ascending(g: &SpatialGrid, i: int, j: int)
    requires
        g.wf(),
        0 <= i < j < g.spec_cells().len(),
    ensures
        g.spec_cells()[i].x < g.spec_cells()[j].x || (g.spec_cells()[i].x == g.spec_cells()[j].x && g.spec_cells()[i].y < g.spec_cells()[j].y),
{
    reveal_grid(g, i, j);
}

proof fn reveal_grid(g: &SpatialGrid, i: int, j: int)
    requires
        g.wf(),
        0 <= i < j < g.spec_cells().len(),
    ensures
        g.spec_cells()[i].x < g.spec_cells()[j].x || (g.spec_cells()[i].x == g.spec_cells()[j].x && g.spec_cells()[i].y < g.spec_cells()[j].y),
{
    lemma_cell_key(g.cells@[i], g.cells@[j]);
    assert(g.keys@[i] < g.keys@[j]);
}

#[derive(Debug, Clone, PartialEq, Eq)]
pub struct Snapshot {
    pub snapshot_id: u64,
    pub baseline_snapshot_id: u64,
    pub tick: Tick,
    pub entities: Vec<EntityState>,
    pub removed_entities: Vec<EntityId>,
}

pub struct SnapshotBuilder {
    snapshot_id: u64,
    baseline_snapshot_id: u64,
    tick: Tick,
    entities: Vec<EntityState>,
    removed_entities: Vec<EntityId>,
}

impl SnapshotBuilder {
    pub closed spec fn spec_snapshot_id(&self) -> u64 {
        self.snapshot_id
    }

    pub closed spec fn spec_baseline(&self) -> u64 {
        self.baseline_snapshot_id
    }

    pub closed spec fn spec_tick(&self) -> Tick {
        self.tick
    }

    pub closed spec fn spec_entities(&self) -> Seq<EntityState> {
        self.entities@
    }

    pub closed spec fn spec_removed(&self) -> Seq<EntityId> {
        self.removed_entities@
    }

    pub fn full(snapshot_id: u64, tick: Tick) -> (r: Self)
        ensures
            r.spec_snapshot_id() == snapshot_id,
            r.spec_baseline() == 0,
            r.spec_tick() == tick,
            r.spec_entities() == Seq::<EntityState>::empty(),
            r.spec_removed() == Seq::<EntityId>::empty(),
    {
        Self {
            snapshot_id,
            baseline_snapshot_id: 0,
            tick,
            entities: Vec::new(),
            removed_entities: Vec::new(),
        }
    }

    pub fn delta(snapshot_id: u64, baseline_snapshot_id: u64, tick: Tick) -> (r: Self)
        ensures
            r.spec_snapshot_id() == snapshot_id,
            r.spec_baseline() == baseline_snapshot_id,
            r.spec_tick() == tick,
            r.spec_entities() == Seq::<EntityState>::empty(),
            r.spec_removed() == Seq::<EntityId>::empty(),
    {
        Self { snapshot_id, baseline_snapshot_id, tick, entities: Vec::new(), removed_entities: Vec::new() }
    }

    pub fn push_entity(&mut self, entity: EntityState)
        ensures
            final(self).spec_snapshot_id() == old(self).spec_snapshot_id(),
            final(self).spec_baseline() == old(self).spec_baseline(),
            final(self).spec_tick() == old(self).spec_tick(),
            final(self).spec_entities() == old(self).spec_entities().push(entity),
            final(self).spec_removed() == old(self).spec_removed(),
    {
        self.entities.push(entity);
    }

    pub fn push_removed(&mut self, entity_id: EntityId)
        ensures
            final(self).spec_snapshot_id() == old(self).spec_snapshot_id(),
            final(self).spec_baseline() == old(self).spec_baseline(),
            final(self).spec_tick() == old(self).spec_tick(),
            final(self).spec_entities() == old(self).spec_entities(),
            final(self).spec_removed() == old(self).spec_removed().push(entity_id),
    {
        self.removed_entities.push(entity_id);
    }

    pub fn build(self) -> (r: Snapshot)
        ensures
            r.snapshot_id == self.spec_snapshot_id(),
            r.baseline_snapshot_id == self.spec_baseline(),
            r.tick == self.spec_tick(),
            r.entities@ == self.spec_entities(),
            r.removed_entities@ == self.spec_removed(),
    {
        Snapshot {
            snapshot_id: self.snapshot_id,
            baseline_snapshot_id: self.baseline_snapshot_id,
            tick: self.tick,
            entities: self.entities,
            removed_entities: self.removed_entities,
        }
    }
}

#[derive(Debug, Clone, Copy, PartialEq, Eq, Structural)]
pub struct TickConfig {
    pub tick_hz: u32,
    pub tick_millis: u64,
}

impl Default for TickConfig {
    fn default() -> (r: Self)
        ensures
            r == (TickConfig { tick_hz: SERVER_TICK_HZ, tick_millis: SERVER_TICK_MILLIS }),
    {
        Self { tick_hz: SERVER_TICK_HZ, tick_millis: SERVER_TICK_MILLIS }
    }
}

#[derive(Debug, Clone, Copy, PartialEq, Eq, Structural)]
pub struct TickLoop {
    config: TickConfig,
    current_tick: Tick,
}

impl TickLoop {
    pub closed spec fn spec_config(&self) -> TickConfig {
        self.config
    }

    pub closed spec fn spec_tick(&self) -> u64 {
        self.current_tick.0
    }

    pub fn new(config: TickConfig) -> (r: Self)
        ensures
            r.spec_config() == config,
            r.spec_tick() == 0,
    {
        Self { config, current_tick: Tick(0) }
    }

    pub fn foundation_default() -> (r: Self)
        ensures
            r.spec_config() == (TickConfig { tick_hz: SERVER_TICK_HZ, tick_millis: SERVER_TICK_MILLIS }),
            r.spec_tick() == 0,
    {
        Self::new(TickConfig { tick_hz: SERVER_TICK_HZ, tick_millis: SERVER_TICK_MILLIS })
    }

    pub fn config(&self) -> (r: TickConfig)
        ensures
            r == self.spec_config(),
    {
        self.config
    }

    pub fn current_tick(&self) -> (r: Tick)
        ensures
            r.0 == self.spec_tick(),
    {
        self.current_tick
    }

    pub fn step(&mut self) -> (r: Tick)
        requires
            old(self).spec_tick() < u64::MAX,
        ensures
            final(self).spec_config() == old(self).spec_config(),
            final(self).spec_tick() == old(self).spec_tick() + 1,
            r.0 == final(self).spec_tick(),
    {
        self.current_tick = Tick(self.current_tick.0 + 1);
        self.current_tick
    }

    pub fn step_n(&mut self, count: u64) -> (r: Tick)
        requires
            old(self).spec_tick() + count <= u64::MAX,
        ensures
            final(self).spec_config() == old(self).spec_config(),
            final(self).spec_tick() == old(self).spec_tick() + count,
            r.0 == final(self).spec_tick(),
    {
        self.current_tick = Tick(self.current_tick.0 + count);
        self.current_tick
    }
}

} // verus!
