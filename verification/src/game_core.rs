use vstd::prelude::*;

use crate::arith::{clamp_i32, sat_add_i32};
use crate::map_data::{bounds_contain, MapBounds, MapPoint};
use crate::reliability::CommandId;
use crate::simulation::{EntityId, EntityState, PlayerSessionId, Snapshot, SnapshotBuilder, Tick, WorldPosition};

verus! {

pub const GCORE_SCHEMA: &'static str = "millions_gcore_v0";

pub const HQ_ENTITY_KIND: u16 = 100;

pub const BASIC_SQUAD_ENTITY_KIND: u16 = 101;

pub const BASIC_SQUAD_MEMBER_COUNT: usize = 4;

#[derive(Debug, Clone, Copy, PartialEq, Eq, Structural)]
pub struct PlayerStart {
    pub session_id: PlayerSessionId,
    pub faction_id: u16,
    pub hq_position: WorldPosition,
    pub squad_spawn_position: WorldPosition,
}

#[derive(Debug, Clone, Copy, PartialEq, Eq, Structural)]
pub struct MoveIntent {
    pub command_id: CommandId,
    pub squad_id: EntityId,
    pub target_position: WorldPosition,
}

#[derive(Debug, Clone, Copy, PartialEq, Eq)]
pub struct SpawnedSquad {
    pub squad_id: EntityId,
    pub owner_session_id: PlayerSessionId,
    pub member_entity_ids: [EntityId; BASIC_SQUAD_MEMBER_COUNT],
    pub spawn_position: WorldPosition,
    pub target_position: Option<WorldPosition>,
}

#[derive(Debug, Clone, Copy, PartialEq, Eq, Structural)]
pub struct AcceptedMoveIntent {
    pub command_id: CommandId,
    pub squad_id: EntityId,
    pub target_position: WorldPosition,
}

#[derive(Debug, Clone, Copy, PartialEq, Eq, Structural)]
pub enum GCoreCommandError {
    PlayerAlreadyStarted,
    PlayerMissing,
    SquadAlreadySpawned,
    SquadMissing,
    WrongOwner,
    PositionOutOfBounds,
    DuplicateCommand,
}

/// A player's start and the id of its headquarters.
pub type PlayerRecord = (PlayerStart, EntityId);

/// A command accepted from a session.
pub type CommandKey = (PlayerSessionId, CommandId);

/// Whether a position lies inside the map bounds.
pub open spec fn position_in_bounds(bounds: MapBounds, position: WorldPosition) -> bool {
    bounds_contain(bounds, MapPoint { x_mm: position.x_mm, y_mm: position.y_mm })
}

pub open spec fn sessions_increasing(players: Seq<PlayerRecord>) -> bool {
    forall|i: int, j: int|
        0 <= i < j < players.len() ==> players[i].0.session_id.0 < players[j].0.session_id.0
}

pub open spec fn has_player(players: Seq<PlayerRecord>, session_id: PlayerSessionId) -> bool {
    exists|i: int| 0 <= i < players.len() && players[i].0.session_id == session_id
}

/// The record of a session's player, where there is one.
pub open spec fn player_of(players: Seq<PlayerRecord>, session_id: PlayerSessionId) -> PlayerRecord {
    players[choose|i: int| 0 <= i < players.len() && players[i].0.session_id == session_id]
}

/// Where a session's record goes in a session-ordered list: after every lower session.
pub open spec fn player_slot(players: Seq<PlayerRecord>, session: u64) -> int
    decreases players.len(),
{
    if players.len() == 0 {
        0
    } else if players.last().0.session_id.0 < session {
        players.len() as int
    } else {
        player_slot(players.drop_last(), session)
    }
}

pub open spec fn squad_ids_increasing(squads: Seq<SpawnedSquad>) -> bool {
    forall|i: int, j: int| 0 <= i < j < squads.len() ==> squads[i].squad_id.0 < squads[j].squad_id.0
}

pub open spec fn has_squad(squads: Seq<SpawnedSquad>, squad_id: EntityId) -> bool {
    exists|i: int| 0 <= i < squads.len() && squads[i].squad_id == squad_id
}

/// Where a squad is stored, where it is.
pub open spec fn squad_index(squads: Seq<SpawnedSquad>, squad_id: EntityId) -> int {
    choose|i: int| 0 <= i < squads.len() && squads[i].squad_id == squad_id
}

pub open spec fn owns_squad(squads: Seq<SpawnedSquad>, session_id: PlayerSessionId) -> bool {
    exists|i: int| 0 <= i < squads.len() && squads[i].owner_session_id == session_id
}

/// The squad spawned with the next free id for a session at a position: the squad takes
/// the id, its four members the four ids after it.
pub open spec fn fresh_squad(squad: SpawnedSquad, next_id: u64, session_id: PlayerSessionId, position: WorldPosition) -> bool {
    &&& squad.squad_id == EntityId(next_id)
    &&& squad.owner_session_id == session_id
    &&& squad.member_entity_ids@ == seq![
        EntityId((next_id + 1) as u64),
        EntityId((next_id + 2) as u64),
        EntityId((next_id + 3) as u64),
        EntityId((next_id + 4) as u64),
    ]
    &&& squad.spawn_position == position
    &&& squad.target_position is None
}

/// The offset of a squad member from the squad's spawn position, by its place in the squad.
pub open spec fn member_offset(index: int) -> (int, int) {
    let k = index % 4;
    if k == 0 {
        (-500, -500)
    } else if k == 1 {
        (500, -500)
    } else if k == 2 {
        (-500, 500)
    } else {
        (500, 500)
    }
}

pub open spec fn member_position(origin: WorldPosition, index: int) -> WorldPosition {
    WorldPosition {
        x_mm: clamp_i32(origin.x_mm + member_offset(index).0) as i32,
        y_mm: clamp_i32(origin.y_mm + member_offset(index).1) as i32,
    }
}

pub open spec fn hq_entity(record: PlayerRecord) -> EntityState {
    EntityState {
        entity_id: record.1,
        entity_kind: HQ_ENTITY_KIND,
        faction_id: record.0.faction_id,
        flags: 1,
        position: record.0.hq_position,
        facing_millirad: 0,
        health_q8: 256,
        state_id: 1,
        state_param_q8: 0,
    }
}

/// The faction of a session's player, or 0 where it has none.
pub open spec fn faction_of(players: Seq<PlayerRecord>, session_id: PlayerSessionId) -> u16 {
    if has_player(players, session_id) {
        player_of(players, session_id).0.faction_id
    } else {
        0
    }
}

pub open spec fn member_entity(squad: SpawnedSquad, faction_id: u16, index: int) -> EntityState {
    EntityState {
        entity_id: squad.member_entity_ids@[index],
        entity_kind: BASIC_SQUAD_ENTITY_KIND,
        faction_id,
        flags: 1,
        position: member_position(squad.spawn_position, index),
        facing_millirad: 0,
        health_q8: 256,
        state_id: 1,
        state_param_q8: 0,
    }
}

pub open spec fn squad_entities(players: Seq<PlayerRecord>, squad: SpawnedSquad) -> Seq<EntityState> {
    Seq::new(4, |k: int| member_entity(squad, faction_of(players, squad.owner_session_id), k))
}

pub open spec fn squads_entities(players: Seq<PlayerRecord>, squads: Seq<SpawnedSquad>) -> Seq<EntityState>
    decreases squads.len(),
{
    if squads.len() == 0 {
        Seq::empty()
    } else {
        squads_entities(players, squads.drop_last()) + squad_entities(players, squads.last())
    }
}

/// Every entity of the game: the headquarters by session, then the squad members by squad.
pub open spec fn gcore_entities(players: Seq<PlayerRecord>, squads: Seq<SpawnedSquad>) -> Seq<EntityState> {
    players.map_values(|p: PlayerRecord| hq_entity(p)) + squads_entities(players, squads)
}

fn offset_member_position(origin: WorldPosition, index: usize) -> (r: WorldPosition)
    ensures
        r == member_position(origin, index as int),
{
    let k = index % BASIC_SQUAD_MEMBER_COUNT;
    let (dx_mm, dy_mm): (i32, i32) = if k == 0 {
        (-500, -500)
    } else if k == 1 {
        (500, -500)
    } else if k == 2 {
        (-500, 500)
    } else {
        (500, 500)
    };
    WorldPosition { x_mm: sat_add_i32(origin.x_mm, dx_mm), y_mm: sat_add_i32(origin.y_mm, dy_mm) }
}

proof fn lemma_player_slot(players: Seq<PlayerRecord>, session: u64, k: int)
    requires
        0 <= k <= players.len(),
        forall|i: int| 0 <= i < k ==> players[i].0.session_id.0 < session,
        forall|i: int| k <= i < players.len() ==> players[i].0.session_id.0 >= session,
    ensures
        player_slot(players, session) == k,
    decreases players.len(),
{
    if players.len() > 0 {
        if players.last().0.session_id.0 >= session {
            lemma_player_slot(players.drop_last(), session, k);
        }
    }
}

proof fn lemma_player_at(players: Seq<PlayerRecord>, i: int)
    requires
        sessions_increasing(players),
        0 <= i < players.len(),
    ensures
        has_player(players, players[i].0.session_id),
        player_of(players, players[i].0.session_id) == players[i],
{
    let j = choose|j: int| 0 <= j < players.len() && players[j].0.session_id == players[i].0.session_id;
    if j < i {
        assert(players[j].0.session_id.0 < players[i].0.session_id.0);
    } else if j > i {
        assert(players[i].0.session_id.0 < players[j].0.session_id.0);
    }
}

proof fn lemma_squad_at(squads: Seq<SpawnedSquad>, i: int)
    requires
        squad_ids_increasing(squads),
        0 <= i < squads.len(),
    ensures
        has_squad(squads, squads[i].squad_id),
        squad_index(squads, squads[i].squad_id) == i,
{
    let j = squad_index(squads, squads[i].squad_id);
    if j < i {
        assert(squads[j].squad_id.0 < squads[i].squad_id.0);
    } else if j > i {
        assert(squads[i].squad_id.0 < squads[j].squad_id.0);
    }
}

/// The authoritative state of the game core: player starts with their headquarters, spawned
/// squads and the move commands accepted so far.
#[derive(Debug, Clone, PartialEq, Eq)]
pub struct GCoreState {
    bounds: MapBounds,
    next_entity_id: u64,
    players: Vec<PlayerRecord>,
    squads: Vec<SpawnedSquad>,
    accepted_commands: Vec<CommandKey>,
}

impl GCoreState {
    pub closed spec fn wf(&self) -> bool {
        &&& sessions_increasing(self.players@)
        &&& squad_ids_increasing(self.squads@)
        &&& forall|i: int| 0 <= i < self.squads@.len() ==> self.squads@[i].squad_id.0 < self.next_entity_id
    }

    pub closed spec fn spec_bounds(&self) -> MapBounds {
        self.bounds
    }

    /// The id the next allocated entity gets.
    pub closed spec fn spec_next_id(&self) -> u64 {
        self.next_entity_id
    }

    /// Player records by increasing session id.
    pub closed spec fn spec_players(&self) -> Seq<PlayerRecord> {
        self.players@
    }

    /// Squads by increasing squad id.
    pub closed spec fn spec_squads(&self) -> Seq<SpawnedSquad> {
        self.squads@
    }

    /// Accepted commands, in the order they were accepted.
    pub closed spec fn spec_commands(&self) -> Seq<CommandKey> {
        self.accepted_commands@
    }

    pub fn new(bounds: MapBounds) -> (r: Self)
        ensures
            r.wf(),
            r.spec_bounds() == bounds,
            r.spec_next_id() == 1,
            r.spec_players() == Seq::<PlayerRecord>::empty(),
            r.spec_squads() == Seq::<SpawnedSquad>::empty(),
            r.spec_commands() == Seq::<CommandKey>::empty(),
    {
        Self {
            bounds,
            next_entity_id: 1,
            players: Vec::new(),
            squads: Vec::new(),
            accepted_commands: Vec::new(),
        }
    }

    pub fn bounds(&self) -> (r: MapBounds)
        ensures
            r == self.spec_bounds(),
    {
        self.bounds
    }

    /// Position of the first player whose session is not below `session_id`.
    fn player_lower_bound(&self, session_id: PlayerSessionId) -> (r: usize)
        requires
            self.wf(),
        ensures
            r <= self.players@.len(),
            forall|i: int| 0 <= i < r ==> self.players@[i].0.session_id.0 < session_id.0,
            forall|i: int| r <= i < self.players@.len() ==> self.players@[i].0.session_id.0 >= session_id.0,
            has_player(self.players@, session_id) <==> (r < self.players@.len()
                && self.players@[r as int].0.session_id == session_id),
            player_slot(self.players@, session_id.0) == r,
    {
        let mut lo: usize = 0;
        let mut hi: usize = self.players.len();
        while lo < hi
            invariant
                self.wf(),
                lo <= hi <= self.players@.len(),
                forall|i: int| 0 <= i < lo ==> self.players@[i].0.session_id.0 < session_id.0,
                forall|i: int| hi <= i < self.players@.len() ==> self.players@[i].0.session_id.0 >= session_id.0,
            decreases hi - lo,
        {
            let mid = lo + (hi - lo) / 2;
            if self.players[mid].0.session_id.0 < session_id.0 {
                lo = mid + 1;
            } else {
                hi = mid;
            }
        }
        proof {
            lemma_player_slot(self.players@, session_id.0, lo as int);
            if has_player(self.players@, session_id) {
                let k = choose|k: int| 0 <= k < self.players@.len() && self.players@[k].0.session_id == session_id;
                if k > lo {
                    assert(self.players@[lo as int].0.session_id.0 < self.players@[k].0.session_id.0);
                }
            }
        }
        lo
    }

    /// Where a session's player is stored, if it has one.
    fn find_player(&self, session_id: PlayerSessionId) -> (r: Option<usize>)
        requires
            self.wf(),
        ensures
            r is Some <==> has_player(self.players@, session_id),
            r is Some ==> r->Some_0 < self.players@.len() && self.players@[r->Some_0 as int] == player_of(
                self.players@,
                session_id,
            ),
    {
        let i = self.player_lower_bound(session_id);
        if i < self.players.len() && self.players[i].0.session_id.0 == session_id.0 {
            proof {
                lemma_player_at(self.players@, i as int);
            }
            Some(i)
        } else {
            None
        }
    }

    fn contains_position(&self, position: WorldPosition) -> (r: bool)
        ensures
            r == position_in_bounds(self.bounds, position),
            r == (self.bounds.min_x <= position.x_mm && position.x_mm <= self.bounds.max_x && self.bounds.min_y
                <= position.y_mm && position.y_mm <= self.bounds.max_y),
    {
        self.bounds.contains_point(MapPoint { x_mm: position.x_mm, y_mm: position.y_mm })
    }

    fn allocate_entity_id(&mut self) -> (r: EntityId)
        requires
            old(self).next_entity_id < u64::MAX,
        ensures
            r == EntityId(old(self).next_entity_id),
            final(self).next_entity_id == old(self).next_entity_id + 1,
            final(self).bounds == old(self).bounds,
            final(self).players == old(self).players,
            final(self).squads == old(self).squads,
            final(self).accepted_commands == old(self).accepted_commands,
    {
        let entity_id = EntityId(self.next_entity_id);
        self.next_entity_id = self.next_entity_id + 1;
        entity_id
    }

    /// Adds a player's start with a new headquarters entity, unless the session has started
    /// already or a position lies outside the map.
    pub fn add_player_start(&mut self, start: PlayerStart) -> (r: Result<EntityId, GCoreCommandError>)
        requires
            old(self).wf(),
            old(self).spec_next_id() < u64::MAX,
        ensures
            final(self).wf(),
            final(self).spec_bounds() == old(self).spec_bounds(),
            final(self).spec_squads() == old(self).spec_squads(),
            final(self).spec_commands() == old(self).spec_commands(),
            r == (if has_player(old(self).spec_players(), start.session_id) {
                Err(GCoreCommandError::PlayerAlreadyStarted)
            } else if !position_in_bounds(old(self).spec_bounds(), start.hq_position)
                || !position_in_bounds(old(self).spec_bounds(), start.squad_spawn_position) {
                Err(GCoreCommandError::PositionOutOfBounds)
            } else {
                Ok(EntityId(old(self).spec_next_id()))
            }),
            r is Err ==> final(self).spec_players() == old(self).spec_players() && final(self).spec_next_id()
                == old(self).spec_next_id(),
            r is Ok ==> final(self).spec_next_id() == old(self).spec_next_id() + 1
                && final(self).spec_players() == old(self).spec_players().insert(
                player_slot(old(self).spec_players(), start.session_id.0),
                (start, EntityId(old(self).spec_next_id())),
            ),
    {
        let slot = self.player_lower_bound(start.session_id);
        if slot < self.players.len() && self.players[slot].0.session_id.0 == start.session_id.0 {
            return Err(GCoreCommandError::PlayerAlreadyStarted);
        }
        if !self.contains_position(start.hq_position) || !self.contains_position(start.squad_spawn_position) {
            return Err(GCoreCommandError::PositionOutOfBounds);
        }
        let ghost p0 = self.players@;
        let hq_entity_id = self.allocate_entity_id();
        self.players.insert(slot, (start, hq_entity_id));
        proof {
            let p1 = self.players@;
            assert forall|a: int, b: int| 0 <= a < b < p1.len() implies p1[a].0.session_id.0
                < p1[b].0.session_id.0 by {
                if b < slot {
                } else if b == slot {
                } else if a < slot {
                    assert(p1[b] == p0[b - 1]);
                } else if a == slot {
                    assert(p1[b] == p0[b - 1]);
                } else {
                    assert(p1[a] == p0[a - 1]);
                    assert(p1[b] == p0[b - 1]);
                }
            }
        }
        Ok(hq_entity_id)
    }

    /// Spawns the basic squad of a started player, once per player.
    pub fn spawn_basic_squad(&mut self, session_id: PlayerSessionId) -> (r: Result<SpawnedSquad, GCoreCommandError>)
        requires
            old(self).wf(),
            old(self).spec_next_id() + 5 <= u64::MAX,
        ensures
            final(self).wf(),
            final(self).spec_bounds() == old(self).spec_bounds(),
            final(self).spec_players() == old(self).spec_players(),
            final(self).spec_commands() == old(self).spec_commands(),
            !has_player(old(self).spec_players(), session_id) ==> r == Err::<SpawnedSquad, GCoreCommandError>(
                GCoreCommandError::PlayerMissing,
            ),
            has_player(old(self).spec_players(), session_id) && owns_squad(old(self).spec_squads(), session_id)
                ==> r == Err::<SpawnedSquad, GCoreCommandError>(GCoreCommandError::SquadAlreadySpawned),
            r is Ok <==> has_player(old(self).spec_players(), session_id) && !owns_squad(
                old(self).spec_squads(),
                session_id,
            ),
            r is Err ==> final(self).spec_squads() == old(self).spec_squads() && final(self).spec_next_id()
                == old(self).spec_next_id(),
            r is Ok ==> {
                let squad = r->Ok_0;
                &&& fresh_squad(
                    squad,
                    old(self).spec_next_id(),
                    session_id,
                    player_of(old(self).spec_players(), session_id).0.squad_spawn_position,
                )
                &&& final(self).spec_squads() == old(self).spec_squads().push(squad)
                &&& final(self).spec_next_id() == old(self).spec_next_id() + 5
            },
    {
        let found = self.find_player(session_id);
        let index = match found {
            Some(i) => i,
            None => {
                return Err(GCoreCommandError::PlayerMissing);
            },
        };
        let start = self.players[index].0;
        let mut k: usize = 0;
        while k < self.squads.len()
            invariant
                self.wf(),
                has_player(self.players@, session_id),
                k <= self.squads@.len(),
                forall|j: int| 0 <= j < k ==> self.squads@[j].owner_session_id != session_id,
            decreases self.squads@.len() - k,
        {
            if self.squads[k].owner_session_id.0 == session_id.0 {
                return Err(GCoreCommandError::SquadAlreadySpawned);
            }
            k += 1;
        }
        let squad_id = self.allocate_entity_id();
        let m0 = self.allocate_entity_id();
        let m1 = self.allocate_entity_id();
        let m2 = self.allocate_entity_id();
        let m3 = self.allocate_entity_id();
        let squad = SpawnedSquad {
            squad_id,
            owner_session_id: session_id,
            member_entity_ids: [m0, m1, m2, m3],
            spawn_position: start.squad_spawn_position,
            target_position: None,
        };
        assert(squad.member_entity_ids@ =~= seq![m0, m1, m2, m3]);
        self.squads.push(squad);
        Ok(squad)
    }

    /// Where a squad is stored, if it exists.
    fn find_squad(&self, squad_id: EntityId) -> (r: Option<usize>)
        requires
            self.wf(),
        ensures
            r is Some <==> has_squad(self.squads@, squad_id),
            r is Some ==> r->Some_0 == squad_index(self.squads@, squad_id),
    {
        let mut k: usize = 0;
        while k < self.squads.len()
            invariant
                self.wf(),
                k <= self.squads@.len(),
                forall|j: int| 0 <= j < k ==> self.squads@[j].squad_id != squad_id,
            decreases self.squads@.len() - k,
        {
            if self.squads[k].squad_id.0 == squad_id.0 {
                proof {
                    lemma_squad_at(self.squads@, k as int);
                }
                return Some(k);
            }
            k += 1;
        }
        None
    }

    fn command_accepted(&self, key: CommandKey) -> (r: bool)
        ensures
            r == self.accepted_commands@.contains(key),
    {
        let mut k: usize = 0;
        while k < self.accepted_commands.len()
            invariant
                k <= self.accepted_commands@.len(),
                forall|j: int| 0 <= j < k ==> self.accepted_commands@[j] != key,
            decreases self.accepted_commands@.len() - k,
        {
            let c = self.accepted_commands[k];
            if c.0.0 == key.0.0 && c.1.0 == key.1.0 {
                return true;
            }
            k += 1;
        }
        false
    }

    /// Applies a move intent of a session to one of its squads, once per command id: the
    /// target must lie inside the map and the squad must belong to the session.
    pub fn apply_move_intent(&mut self, session_id: PlayerSessionId, intent: MoveIntent) -> (r: Result<
        AcceptedMoveIntent,
        GCoreCommandError,
    >)
        requires
            old(self).wf(),
        ensures
            final(self).wf(),
            final(self).spec_bounds() == old(self).spec_bounds(),
            final(self).spec_players() == old(self).spec_players(),
            final(self).spec_next_id() == old(self).spec_next_id(),
            r == move_intent_result(*old(self), session_id, intent),
            ({
                let b = old(self).spec_bounds();
                let t = intent.target_position;
                let inside = b.min_x <= t.x_mm && t.x_mm <= b.max_x && b.min_y <= t.y_mm && t.y_mm <= b.max_y;
                &&& r is Ok ==> inside
                &&& (r == Err::<AcceptedMoveIntent, GCoreCommandError>(GCoreCommandError::PositionOutOfBounds) <==> (!inside
                    && !old(self).spec_commands().contains((session_id, intent.command_id))))
            }),
            r is Err ==> final(self).spec_squads() == old(self).spec_squads() && final(self).spec_commands()
                == old(self).spec_commands(),
            r is Ok ==> {
                let i = squad_index(old(self).spec_squads(), intent.squad_id);
                &&& final(self).spec_commands() == old(self).spec_commands().push((session_id, intent.command_id))
                &&& final(self).spec_squads() == old(self).spec_squads().update(
                    i,
                    SpawnedSquad { target_position: Some(intent.target_position), ..old(self).spec_squads()[i] },
                )
            },
    {
        let key: CommandKey = (session_id, intent.command_id);
        if self.command_accepted(key) {
            return Err(GCoreCommandError::DuplicateCommand);
        }
        if !self.contains_position(intent.target_position) {
            return Err(GCoreCommandError::PositionOutOfBounds);
        }
        let index = match self.find_squad(intent.squad_id) {
            Some(i) => i,
            None => {
                return Err(GCoreCommandError::SquadMissing);
            },
        };
        let mut squad = self.squads[index];
        if squad.owner_session_id.0 != session_id.0 {
            return Err(GCoreCommandError::WrongOwner);
        }
        squad.target_position = Some(intent.target_position);
        self.squads.set(index, squad);
        self.accepted_commands.push(key);
        Ok(
            AcceptedMoveIntent {
                command_id: intent.command_id,
                squad_id: intent.squad_id,
                target_position: intent.target_position,
            },
        )
    }

    pub fn player_count(&self) -> (r: usize)
        ensures
            r == self.spec_players().len(),
    {
        self.players.len()
    }

    pub fn squad_count(&self) -> (r: usize)
        ensures
            r == self.spec_squads().len(),
    {
        self.squads.len()
    }

    pub fn squad(&self, squad_id: EntityId) -> (r: Option<&SpawnedSquad>)
        requires
            self.wf(),
        ensures
            r is Some <==> has_squad(self.spec_squads(), squad_id),
            r is Some ==> *r->Some_0 == self.spec_squads()[squad_index(self.spec_squads(), squad_id)],
    {
        match self.find_squad(squad_id) {
            Some(i) => Some(&self.squads[i]),
            None => None,
        }
    }

    /// The entities of the game: each player's headquarters by session, then the four members
    /// of each squad by squad, placed around the squad's spawn position.
    pub fn snapshot_entities(&self) -> (r: Vec<EntityState>)
        requires
            self.wf(),
        ensures
            r@ == gcore_entities(self.spec_players(), self.spec_squads()),
    {
        let mut entities: Vec<EntityState> = Vec::new();
        let mut i: usize = 0;
        while i < self.players.len()
            invariant
                i <= self.players@.len(),
                entities@ == self.players@.take(i as int).map_values(|p: PlayerRecord| hq_entity(p)),
            decreases self.players@.len() - i,
        {
            let (start, hq_entity_id) = self.players[i];
            entities.push(
                EntityState {
                    entity_id: hq_entity_id,
                    entity_kind: HQ_ENTITY_KIND,
                    faction_id: start.faction_id,
                    flags: 1,
                    position: start.hq_position,
                    facing_millirad: 0,
                    health_q8: 256,
                    state_id: 1,
                    state_param_q8: 0,
                },
            );
            assert(self.players@.take(i + 1).map_values(|p: PlayerRecord| hq_entity(p))
                =~= self.players@.take(i as int).map_values(|p: PlayerRecord| hq_entity(p)).push(
                hq_entity(self.players@[i as int]),
            ));
            i += 1;
        }
        assert(self.players@.take(i as int) =~= self.players@);
        let ghost hqs = entities@;
        let mut s: usize = 0;
        while s < self.squads.len()
            invariant
                self.wf(),
                s <= self.squads@.len(),
                entities@ == hqs + squads_entities(self.players@, self.squads@.take(s as int)),
            decreases self.squads@.len() - s,
        {
            let squad = self.squads[s];
            let faction_id = match self.find_player(squad.owner_session_id) {
                Some(p) => self.players[p].0.faction_id,
                None => 0,
            };
            let ghost before = entities@;
            let mut m: usize = 0;
            while m < BASIC_SQUAD_MEMBER_COUNT
                invariant
                    m <= 4,
                    faction_id == faction_of(self.players@, squad.owner_session_id),
                    squad.member_entity_ids@.len() == 4,
                    entities@ == before + squad_entities(self.players@, squad).take(m as int),
                decreases 4 - m,
            {
                entities.push(
                    EntityState {
                        entity_id: squad.member_entity_ids[m],
                        entity_kind: BASIC_SQUAD_ENTITY_KIND,
                        faction_id,
                        flags: 1,
                        position: offset_member_position(squad.spawn_position, m),
                        facing_millirad: 0,
                        health_q8: 256,
                        state_id: 1,
                        state_param_q8: 0,
                    },
                );
                assert(squad_entities(self.players@, squad).take(m + 1) =~= squad_entities(
                    self.players@,
                    squad,
                ).take(m as int).push(member_entity(squad, faction_id, m as int)));
                m += 1;
            }
            assert(squad_entities(self.players@, squad).take(4) =~= squad_entities(self.players@, squad));
            assert(self.squads@.take(s + 1).drop_last() =~= self.squads@.take(s as int));
            s += 1;
        }
        assert(self.squads@.take(s as int) =~= self.squads@);
        entities
    }

    pub fn build_full_snapshot(&self, snapshot_id: u64, tick: Tick) -> (r: Snapshot)
        requires
            self.wf(),
        ensures
            r.snapshot_id == snapshot_id,
            r.baseline_snapshot_id == 0,
            r.tick == tick,
            r.entities@ == gcore_entities(self.spec_players(), self.spec_squads()),
            r.removed_entities@ == Seq::<EntityId>::empty(),
    {
        let mut builder = SnapshotBuilder::full(snapshot_id, tick);
        let entities = self.snapshot_entities();
        let mut i: usize = 0;
        while i < entities.len()
            invariant
                i <= entities@.len(),
                builder.spec_snapshot_id() == snapshot_id,
                builder.spec_baseline() == 0,
                builder.spec_tick() == tick,
                builder.spec_entities() == entities@.take(i as int),
                builder.spec_removed() == Seq::<EntityId>::empty(),
            decreases entities@.len() - i,
        {
            builder.push_entity(entities[i]);
            assert(entities@.take(i + 1) =~= entities@.take(i as int).push(entities@[i as int]));
            i += 1;
        }
        assert(entities@.take(i as int) =~= entities@);
        builder.build()
    }
}

/// What applying a move intent of a session gives on a state.
pub open spec fn move_intent_result(state: GCoreState, session_id: PlayerSessionId, intent: MoveIntent) -> Result<
    AcceptedMoveIntent,
    GCoreCommandError,
> {
    let squads = state.spec_squads();
    if state.spec_commands().contains((session_id, intent.command_id)) {
        Err(GCoreCommandError::DuplicateCommand)
    } else if !position_in_bounds(state.spec_bounds(), intent.target_position) {
        Err(GCoreCommandError::PositionOutOfBounds)
    } else if !has_squad(squads, intent.squad_id) {
        Err(GCoreCommandError::SquadMissing)
    } else if squads[squad_index(squads, intent.squad_id)].owner_session_id != session_id {
        Err(GCoreCommandError::WrongOwner)
    } else {
        Ok(
            AcceptedMoveIntent {
                command_id: intent.command_id,
                squad_id: intent.squad_id,
                target_position: intent.target_position,
            },
        )
    }
}

/// A position is in the map exactly when it lies in the bounds' rectangle, edges included:
/// the same rectangle that map validation holds points to.
pub proof fn lemma_position_in_map_rectangle(bounds: MapBounds, position: WorldPosition)
    ensures
        position_in_bounds(bounds, position) <==> (bounds.min_x <= position.x_mm && position.x_mm <= bounds.max_x
            && bounds.min_y <= position.y_mm && position.y_mm <= bounds.max_y),
        position_in_bounds(bounds, position) <==> bounds_contain(bounds, MapPoint { x_mm: position.x_mm, y_mm: position.y_mm }),
{
}

/// A move is only ever accepted towards a target inside the map rectangle (both coordinates
/// between the bounds' minimum and maximum, ends included), and a new command whose target
/// lies outside that rectangle is refused as out of bounds.
pub proof fn lemma_move_target_inside_map(state: GCoreState, session_id: PlayerSessionId, intent: MoveIntent)
    ensures
        ({
            let b = state.spec_bounds();
            let t = intent.target_position;
            let inside = b.min_x <= t.x_mm && t.x_mm <= b.max_x && b.min_y <= t.y_mm && t.y_mm <= b.max_y;
            let r = move_intent_result(state, session_id, intent);
            &&& r is Ok ==> inside && r->Ok_0.target_position == t
            &&& (r == Err::<AcceptedMoveIntent, GCoreCommandError>(GCoreCommandError::PositionOutOfBounds) <==> (!inside
                && !state.spec_commands().contains((session_id, intent.command_id))))
        }),
{
}

/// A move command that was accepted is refused as a duplicate when the same session sends it
/// again, whatever else it asks.
pub proof fn lemma_move_intent_idempotent(
    before: GCoreState,
    after: GCoreState,
    session_id: PlayerSessionId,
    intent: MoveIntent,
    again: MoveIntent,
)
    requires
        move_intent_result(before, session_id, intent) is Ok,
        after.spec_commands() == before.spec_commands().push((session_id, intent.command_id)),
        again.command_id == intent.command_id,
    ensures
        move_intent_result(after, session_id, again) == Err::<AcceptedMoveIntent, GCoreCommandError>(
            GCoreCommandError::DuplicateCommand,
        ),
{
    assert(after.spec_commands().last() == (session_id, again.command_id));
    assert(after.spec_commands().contains((session_id, again.command_id)));
}

/// A session whose start was accepted is refused when it starts again.
pub proof fn lemma_player_starts_once(before: GCoreState, start: PlayerStart, again: PlayerStart)
    requires
        !has_player(before.spec_players(), start.session_id),
        again.session_id == start.session_id,
    ensures
        has_player(
            before.spec_players().insert(
                player_slot(before.spec_players(), start.session_id.0),
                (start, EntityId(before.spec_next_id())),
            ),
            again.session_id,
        ),
{
    let k = player_slot(before.spec_players(), start.session_id.0);
    lemma_player_slot_range(before.spec_players(), start.session_id.0);
    let after = before.spec_players().insert(k, (start, EntityId(before.spec_next_id())));
    assert(after[k].0.session_id == again.session_id);
}

proof fn lemma_player_slot_range(players: Seq<PlayerRecord>, session: u64)
    ensures
        0 <= player_slot(players, session) <= players.len(),
    decreases players.len(),
{
    if players.len() > 0 && players.last().0.session_id.0 >= session {
        lemma_player_slot_range(players.drop_last(), session);
    }
}

} // verus!
