//! The space-time reservation table: which agent holds which cell at which
//! tick.

use crate::fx::map_get;
use crate::fx::map_insert;
use crate::types::AgentId;
use crate::types::GridPos;
use rustc_hash::FxHashMap;
use vstd::prelude::*;

verus! {

broadcast use vstd::std_specs::hash::group_hash_axioms;

/// One slot of the table: a cell at a tick.
#[derive(Debug, Clone, Copy, PartialEq, Eq, Structural, Hash)]
pub struct SpaceTimeKey {
    pub pos: GridPos,
    pub tick: u64,
}

/// The integer under which the slot `(pos, tick)` is stored. Every slot has
/// its own integer and every 128-bit integer stands for a slot.
pub open spec fn slot_code(pos: GridPos, tick: u64) -> u128 {
    (((pos.x + 0x8000_0000) * 0x1_0000_0000 + (pos.y + 0x8000_0000)) * 0x1_0000_0000_0000_0000
        + tick) as u128
}

/// The slot that the integer `code` stands for.
pub open spec fn slot_of(code: u128) -> SpaceTimeKey {
    SpaceTimeKey {
        pos: GridPos {
            x: (code / 0x1_0000_0000_0000_0000_0000_0000 - 0x8000_0000) as i32,
            y: ((code / 0x1_0000_0000_0000_0000) % 0x1_0000_0000 - 0x8000_0000) as i32,
        },
        tick: (code % 0x1_0000_0000_0000_0000) as u64,
    }
}

/// Decoding undoes encoding.
pub proof fn lemma_slot_of_code(pos: GridPos, tick: u64)
    ensures
        slot_of(slot_code(pos, tick)) == (SpaceTimeKey { pos, tick }),
{
    let hi: int = (pos.x + 0x8000_0000) * 0x1_0000_0000 + (pos.y + 0x8000_0000);
    let c: int = hi * 0x1_0000_0000_0000_0000 + tick;
    assert(0 <= hi < 0x1_0000_0000_0000_0000);
    assert(c / 0x1_0000_0000_0000_0000 == hi);
    assert(c % 0x1_0000_0000_0000_0000 == tick);
    assert(hi % 0x1_0000_0000 == pos.y + 0x8000_0000);
    assert(hi / 0x1_0000_0000 == pos.x + 0x8000_0000);
    assert(c / 0x1_0000_0000_0000_0000_0000_0000 == pos.x + 0x8000_0000);
}

/// Encoding undoes decoding.
pub proof fn lemma_code_of_slot(code: u128)
    ensures
        slot_code(slot_of(code).pos, slot_of(code).tick) == code,
{
    let hi: int = (code / 0x1_0000_0000_0000_0000) as int;
    assert(0 <= hi < 0x1_0000_0000_0000_0000);
    assert(hi / 0x1_0000_0000 == code / 0x1_0000_0000_0000_0000_0000_0000);
}

/// Two slots with one code are one slot.
pub proof fn lemma_slot_code_injective(p: GridPos, t: u64, q: GridPos, u: u64)
    requires
        slot_code(p, t) == slot_code(q, u),
    ensures
        p == q,
        t == u,
{
    lemma_slot_of_code(p, t);
    lemma_slot_of_code(q, u);
}

impl SpaceTimeKey {
    /// The slot of the cell `pos` at `tick`.
    pub fn new(pos: GridPos, tick: u64) -> (k: SpaceTimeKey)
        ensures
            k == (SpaceTimeKey { pos, tick }),
    {
        SpaceTimeKey { pos, tick }
    }

    /// The integer under which this slot is stored.
    pub open spec fn code(self) -> u128 {
        slot_code(self.pos, self.tick)
    }

    /// Computes the integer under which this slot is stored.
    pub fn encode(&self) -> (c: u128)
        ensures
            c == self.code(),
    {
        let xu: u128 = (self.pos.x as i64 + 0x8000_0000) as u128;
        let yu: u128 = (self.pos.y as i64 + 0x8000_0000) as u128;
        (xu * 0x1_0000_0000 + yu) * 0x1_0000_0000_0000_0000 + self.tick as u128
    }

    /// Recovers the slot from the integer under which it is stored.
    pub fn decode(code: u128) -> (k: SpaceTimeKey)
        ensures
            k == slot_of(code),
            k.code() == code,
    {
        proof {
            lemma_code_of_slot(code);
        }
        let hi: u128 = code / 0x1_0000_0000_0000_0000;
        let tick: u64 = (code % 0x1_0000_0000_0000_0000) as u64;
        let xu: i64 = (hi / 0x1_0000_0000) as i64;
        let yu: i64 = (hi % 0x1_0000_0000) as i64;
        assert(hi / 0x1_0000_0000 == code / 0x1_0000_0000_0000_0000_0000_0000);
        SpaceTimeKey { pos: GridPos { x: (xu - 0x8000_0000) as i32, y: (yu - 0x8000_0000) as i32 }, tick }
    }
}

/// Which entries a sweep of the table keeps.
pub enum Sweep {
    /// Drop every entry of the agent.
    Agent(AgentId),
    /// Drop every entry of the agent but those at `pos` in the three ticks
    /// from `now` on.
    AgentExceptAnchor { agent: AgentId, pos: GridPos, now: u64 },
    /// Drop every entry older than the tick before `now`.
    Stale { now: u64 },
}

impl Sweep {
    /// Whether the sweep keeps the entry that gives slot `key` to `owner`.
    pub open spec fn keeps(self, key: SpaceTimeKey, owner: AgentId) -> bool {
        match self {
            Sweep::Agent(agent) => owner != agent,
            Sweep::AgentExceptAnchor { agent, pos, now } => owner != agent || (key.pos == pos && now
                <= key.tick < now + 3),
            Sweep::Stale { now } => key.tick >= now - 1,
        }
    }

    /// Decides whether the sweep keeps the entry stored as `code` and
    /// `owner`.
    pub fn keeps_entry(&self, code: u128, owner: u64) -> (keep: bool)
        ensures
            keep == self.keeps(slot_of(code), AgentId(owner)),
    {
        let key = SpaceTimeKey::decode(code);
        match self {
            Sweep::Agent(agent) => owner != agent.0,
            Sweep::AgentExceptAnchor { agent, pos, now } => {
                owner != agent.0 || (key.pos == *pos && key.tick >= *now && key.tick - *now < 3)
            },
            Sweep::Stale { now } => key.tick >= now.saturating_sub(1),
        }
    }
}

/// What is left of the reservations `m` after a sweep.
pub open spec fn swept(m: Map<SpaceTimeKey, AgentId>, sweep: Sweep) -> Map<SpaceTimeKey, AgentId> {
    Map::new(|k: SpaceTimeKey| m.contains_key(k) && sweep.keeps(k, m[k]), |k: SpaceTimeKey| m[k])
}

/// `HashMap::retain` on an `FxHashMap`, with the sweep as predicate:
/// exactly the entries that the sweep keeps stay, each with its value. The
/// body is not verified.
#[verifier::external_body]
fn map_retain(m: &mut FxHashMap<u128, u64>, sweep: &Sweep)
    ensures
        forall|c: u128| #[trigger]
            final(m)@.contains_key(c) <==> old(m)@.contains_key(c) && sweep.keeps(
                slot_of(c),
                AgentId(old(m)@[c]),
            ),
        forall|c: u128| #[trigger] final(m)@.contains_key(c) ==> final(m)@[c] == old(m)@[c],
{
    m.retain(|code, owner| sweep.keeps_entry(*code, *owner));
}

/// The slot `(pos, tick)` is open to `exclude` in the reservations `m`: it
/// is empty, or held by `exclude` itself.
pub open spec fn free_in(
    m: Map<SpaceTimeKey, AgentId>,
    pos: GridPos,
    tick: u64,
    exclude: Option<AgentId>,
) -> bool {
    let k = SpaceTimeKey { pos, tick };
    m.contains_key(k) ==> exclude == Some(m[k])
}

/// The move from `from` to `to` between `tick` and the next tick crosses
/// nobody in the reservations `m`: the target cell at `tick` and the source
/// cell at the next tick are both open to `exclude`.
pub open spec fn edge_free_in(
    m: Map<SpaceTimeKey, AgentId>,
    from: GridPos,
    to: GridPos,
    tick: u64,
    exclude: Option<AgentId>,
) -> bool
    recommends
        tick < u64::MAX,
{
    free_in(m, to, tick, exclude) && free_in(m, from, (tick + 1) as u64, exclude)
}

/// Some slot of `path` is `k`.
pub open spec fn path_covers(path: Seq<(GridPos, u64)>, k: SpaceTimeKey) -> bool {
    exists|i: int| 0 <= i < path.len() && #[trigger] path[i] == (k.pos, k.tick)
}

/// Every slot of `path` is open to `agent` in the reservations `m`.
pub open spec fn path_free_in(
    m: Map<SpaceTimeKey, AgentId>,
    path: Seq<(GridPos, u64)>,
    agent: AgentId,
) -> bool {
    forall|i: int| 0 <= i < path.len() ==> free_in(m, (#[trigger] path[i]).0, path[i].1, Some(agent))
}

/// The reservations `m` with every slot of `path` given to `agent`.
pub open spec fn with_path(
    m: Map<SpaceTimeKey, AgentId>,
    path: Seq<(GridPos, u64)>,
    agent: AgentId,
) -> Map<SpaceTimeKey, AgentId> {
    Map::new(
        |k: SpaceTimeKey| m.contains_key(k) || path_covers(path, k),
        |k: SpaceTimeKey|
            if path_covers(path, k) {
                agent
            } else {
                m[k]
            },
    )
}

/// The reservation table. Its view is the map from slots to the agents that
/// hold them, so no slot ever has two holders.
pub struct SpaceTimeTable {
    reservations: FxHashMap<u128, u64>,
    current_tick: u64,
}

impl View for SpaceTimeTable {
    type V = Map<SpaceTimeKey, AgentId>;

    closed spec fn view(&self) -> Map<SpaceTimeKey, AgentId> {
        Map::new(
            |k: SpaceTimeKey| self.reservations@.contains_key(k.code()),
            |k: SpaceTimeKey| AgentId(self.reservations@[k.code()]),
        )
    }
}

impl Default for SpaceTimeTable {
    /// An empty table at tick 0.
    fn default() -> (t: SpaceTimeTable)
        ensures
            t@ == Map::<SpaceTimeKey, AgentId>::empty(),
            t.clock() == 0,
    {
        SpaceTimeTable::new()
    }
}

impl SpaceTimeTable {
    /// The tick that the table's clock shows.
    pub closed spec fn clock(&self) -> u64 {
        self.current_tick
    }

    /// An empty table at tick 0.
    pub fn new() -> (t: SpaceTimeTable)
        ensures
            t@ == Map::<SpaceTimeKey, AgentId>::empty(),
            t.clock() == 0,
    {
        let t = SpaceTimeTable { reservations: FxHashMap::default(), current_tick: 0 };
        assert(t@ =~= Map::<SpaceTimeKey, AgentId>::empty());
        t
    }

    /// Gives the slot `(pos, tick)` to `entity` if it is empty or already
    /// held by `entity`; otherwise changes nothing.
    pub fn reserve(&mut self, pos: GridPos, tick: u64, entity: AgentId) -> (ok: bool)
        ensures
            ok == free_in(old(self)@, pos, tick, Some(entity)),
            ok ==> final(self)@ == old(self)@.insert(SpaceTimeKey { pos, tick }, entity),
            !ok ==> final(self)@ == old(self)@,
            final(self).clock() == old(self).clock(),
    {
        let key = SpaceTimeKey::new(pos, tick);
        let code = key.encode();
        if let Some(existing) = map_get(&self.reservations, code) {
            if existing != entity.0 {
                return false;
            }
        }
        map_insert(&mut self.reservations, code, entity.0);
        proof {
            assert forall|k: SpaceTimeKey| k.code() == code implies k == key by {
                lemma_slot_code_injective(k.pos, k.tick, pos, tick);
            }
            assert(self@ =~= old(self)@.insert(key, entity));
        }
        true
    }

    /// Gives every slot of `path` to `entity`, or changes nothing: when any
    /// slot of the path is held by another agent, no slot is written.
    pub fn reserve_path(&mut self, path: &[(GridPos, u64)], entity: AgentId) -> (ok: bool)
        ensures
            ok == path_free_in(old(self)@, path@, entity),
            ok ==> final(self)@ == with_path(old(self)@, path@, entity),
            !ok ==> final(self)@ == old(self)@,
            final(self).clock() == old(self).clock(),
    {
        let n = path.len();
        let mut i: usize = 0;
        while i < n
            invariant
                i <= n,
                n == path@.len(),
                *self == *old(self),
                forall|j: int| 0 <= j < i ==> free_in(self@, (#[trigger] path@[j]).0, path@[j].1, Some(entity)),
            decreases n - i,
        {
            let (pos, tick) = path[i];
            if !self.is_free(pos, tick, Some(entity)) {
                return false;
            }
            i += 1;
        }
        let mut i: usize = 0;
        while i < n
            invariant
                i <= n,
                n == path@.len(),
                path_free_in(old(self)@, path@, entity),
                self@ == with_path(old(self)@, path@.take(i as int), entity),
                self.clock() == old(self).clock(),
            decreases n - i,
        {
            let (pos, tick) = path[i];
            let ghost before = self@;
            let key = SpaceTimeKey::new(pos, tick);
            map_insert(&mut self.reservations, key.encode(), entity.0);
            proof {
                assert forall|k: SpaceTimeKey| k.code() == key.code() implies k == key by {
                    lemma_slot_code_injective(k.pos, k.tick, pos, tick);
                }
                assert(self@ =~= before.insert(key, entity));
                let shorter = path@.take(i as int);
                let longer = path@.take(i + 1);
                assert(longer[i as int] == (key.pos, key.tick));
                assert forall|k: SpaceTimeKey| path_covers(longer, k) <==> (path_covers(shorter, k) || k
                    == key) by {
                    if path_covers(shorter, k) {
                        let j = choose|j: int| 0 <= j < shorter.len() && shorter[j] == (k.pos, k.tick);
                        assert(longer[j] == (k.pos, k.tick));
                    }
                    if path_covers(longer, k) {
                        let j = choose|j: int| 0 <= j < longer.len() && longer[j] == (k.pos, k.tick);
                        if j < i {
                            assert(shorter[j] == (k.pos, k.tick));
                        }
                    }
                }
                assert(self@ =~= with_path(old(self)@, longer, entity));
            }
            i += 1;
        }
        proof {
            assert(path@.take(n as int) =~= path@);
        }
        true
    }

    /// Whether the slot `(pos, tick)` is empty or held by `exclude`.
    pub fn is_free(&self, pos: GridPos, tick: u64, exclude: Option<AgentId>) -> (free: bool)
        ensures
            free == free_in(self@, pos, tick, exclude),
    {
        match map_get(&self.reservations, SpaceTimeKey::new(pos, tick).encode()) {
            None => true,
            Some(e) => match exclude {
                Some(ex) => ex.0 == e,
                None => false,
            },
        }
    }

    /// Whether a move from `from` to `to` between `tick` and the next tick
    /// would cross nobody: nobody else holds `to` at `tick` or `from` at the
    /// next tick.
    pub fn is_edge_free(&self, from: GridPos, to: GridPos, tick: u64, exclude: Option<AgentId>) -> (free:
        bool)
        requires
            tick < u64::MAX,
        ensures
            free == edge_free_in(self@, from, to, tick, exclude),
    {
        self.is_free(to, tick, exclude) && self.is_free(from, tick + 1, exclude)
    }

    /// Sweeps the stored entries and says what the view has become.
    fn sweep(&mut self, sweep: &Sweep)
        ensures
            final(self)@ == swept(old(self)@, *sweep),
            final(self).clock() == old(self).clock(),
    {
        map_retain(&mut self.reservations, sweep);
        proof {
            assert forall|k: SpaceTimeKey| slot_of(k.code()) == k by {
                lemma_slot_of_code(k.pos, k.tick);
            }
            assert(self@ =~= swept(old(self)@, *sweep));
        }
    }

    /// Removes every entry held by `entity`.
    pub fn clear_entity(&mut self, entity: AgentId)
        ensures
            final(self)@ == swept(old(self)@, Sweep::Agent(entity)),
            final(self).clock() == old(self).clock(),
    {
        self.sweep(&Sweep::Agent(entity));
    }

    /// Removes every entry held by `entity`, except those at `current_pos`
    /// whose tick is `current_tick` or one of the two ticks after it.
    pub fn clear_entity_except_pos(&mut self, entity: AgentId, current_pos: GridPos, current_tick: u64)
        ensures
            final(self)@ == swept(
                old(self)@,
                Sweep::AgentExceptAnchor { agent: entity, pos: current_pos, now: current_tick },
            ),
            final(self).clock() == old(self).clock(),
    {
        self.sweep(&Sweep::AgentExceptAnchor { agent: entity, pos: current_pos, now: current_tick });
    }

    /// Drops every entry older than the tick before `current_tick`, and
    /// sets the clock to `current_tick`.
    pub fn cleanup(&mut self, current_tick: u64)
        ensures
            final(self)@ == swept(old(self)@, Sweep::Stale { now: current_tick }),
            final(self).clock() == current_tick,
            forall|k: SpaceTimeKey| final(self)@.contains_key(k) ==> k.tick >= current_tick - 1,
            forall|k: SpaceTimeKey|
                old(self)@.contains_key(k) && k.tick >= current_tick - 1 ==> final(self)@.contains_key(k)
                    && final(self)@[k] == old(self)@[k],
    {
        self.sweep(&Sweep::Stale { now: current_tick });
        self.current_tick = current_tick;
    }

    /// The tick that the table's clock shows.
    pub fn current_tick(&self) -> (tick: u64)
        ensures
            tick == self.clock(),
    {
        self.current_tick
    }

    /// Moves the clock on by one tick.
    pub fn advance_tick(&mut self)
        requires
            old(self).clock() < u64::MAX,
        ensures
            final(self).clock() == old(self).clock() + 1,
            final(self)@ == old(self)@,
    {
        self.current_tick += 1;
    }
}

} // verus!
