//! The single-agent planner: a weighted A* search over cells and ticks that
//! respects the reservations of the other agents.

use crate::constants::PBS_HORIZON_TICKS;
use crate::constants::PBS_REPLAN_INTERVAL;
use crate::fx::map_get;
use crate::fx::map_insert;
use crate::grid::WarehouseGrid;
use crate::highways::HighwayGraph;
use crate::open_list::first_node;
use crate::open_list::OpenList;
use crate::open_list::SpaceTimeNode;
use crate::spacetime::edge_free_in;
use crate::spacetime::free_in;
use crate::spacetime::lemma_slot_code_injective;
use crate::spacetime::slot_code;
use crate::spacetime::SpaceTimeKey;
use crate::spacetime::SpaceTimeTable;
use crate::types::lemma_pos_code_injective;
use crate::types::manhattan;
use crate::types::pos_code;
use crate::types::AgentId;
use crate::types::GridPos;
use rustc_hash::FxHashMap;
use vstd::prelude::*;

verus! {

broadcast use vstd::std_specs::hash::group_hash_axioms;

/// Cost of waiting one tick, in tenths of the cost of a move.
pub const WAIT_COST: u128 = 5;

/// Cost of one move, in tenths.
pub const MOVE_COST: u128 = 10;

/// How many nodes one search may take from its open list.
pub const MAX_ITERATIONS: u32 = 15000;

/// Settings of the planner and of the replanning cycle.
pub struct PbsConfig {
    /// How many ticks past its start a search may reach.
    pub horizon: u64,
    /// Ticks between two replanning cycles.
    pub replan_interval: u64,
    /// Weight of the distance estimate, in tenths: 12 stands for 1.2.
    pub heuristic_weight_tenths: u32,
}

impl Default for PbsConfig {
    fn default() -> (c: PbsConfig)
        ensures
            c.horizon == 100,
            c.replan_interval == 3,
            c.heuristic_weight_tenths == 12,
    {
        PbsConfig {
            horizon: PBS_HORIZON_TICKS,
            replan_interval: PBS_REPLAN_INTERVAL,
            heuristic_weight_tenths: 12,
        }
    }
}

/// The cells on which agents stand that will not move during this planning
/// cycle, each with the agent that stands there.
pub struct StaticObstacles {
    positions: FxHashMap<u64, u64>,
}

impl View for StaticObstacles {
    type V = Map<GridPos, AgentId>;

    closed spec fn view(&self) -> Map<GridPos, AgentId> {
        Map::new(
            |p: GridPos| self.positions@.contains_key(pos_code(p)),
            |p: GridPos| AgentId(self.positions@[pos_code(p)]),
        )
    }
}

/// Whether the cell `pos` is taken, in the obstacles `m`, by an agent other
/// than `exclude`.
pub open spec fn blocked_in(m: Map<GridPos, AgentId>, pos: GridPos, exclude: Option<AgentId>) -> bool {
    m.contains_key(pos) && exclude != Some(m[pos])
}

impl Default for StaticObstacles {
    fn default() -> (o: StaticObstacles)
        ensures
            o@ == Map::<GridPos, AgentId>::empty(),
    {
        StaticObstacles::new()
    }
}

impl StaticObstacles {
    /// No obstacles.
    pub fn new() -> (o: StaticObstacles)
        ensures
            o@ == Map::<GridPos, AgentId>::empty(),
    {
        let o = StaticObstacles { positions: FxHashMap::default() };
        assert(o@ =~= Map::<GridPos, AgentId>::empty());
        o
    }

    /// Records that `entity` stands on `pos` and stays there.
    pub fn insert(&mut self, pos: GridPos, entity: AgentId)
        ensures
            final(self)@ == old(self)@.insert(pos, entity),
    {
        map_insert(&mut self.positions, pos.encode(), entity.0);
        proof {
            assert forall|p: GridPos| pos_code(p) == pos_code(pos) implies p == pos by {
                lemma_pos_code_injective(p, pos);
            }
            assert(self@ =~= old(self)@.insert(pos, entity));
        }
    }

    /// Whether an agent other than `exclude` stands on `pos`.
    pub fn is_blocked(&self, pos: GridPos, exclude: Option<AgentId>) -> (blocked: bool)
        ensures
            blocked == blocked_in(self@, pos, exclude),
    {
        match map_get(&self.positions, pos.encode()) {
            None => false,
            Some(e) => match exclude {
                Some(ex) => ex.0 != e,
                None => true,
            },
        }
    }
}

/// The tick at which a search that starts at `start_tick` and may look
/// `horizon` ticks ahead stops expanding.
pub open spec fn end_tick(start_tick: u64, horizon: u64) -> u64 {
    if start_tick + horizon > u64::MAX {
        u64::MAX
    } else {
        (start_tick + horizon) as u64
    }
}

/// The agent `entity` may go from cell `a.0` at tick `a.1` to cell `b.0` at
/// tick `b.1`: the ticks are consecutive, and either it waits on a cell that
/// stays open to it, or it moves to a neighboring floor cell of the plan
/// that no standing agent blocks, that is open to it on arrival, and that
/// it reaches without crossing another agent.
pub open spec fn step_allowed(
    grid: &WarehouseGrid,
    highways: &HighwayGraph,
    obstacles: Map<GridPos, AgentId>,
    table: Map<SpaceTimeKey, AgentId>,
    entity: AgentId,
    a: (GridPos, u64),
    b: (GridPos, u64),
) -> bool {
    &&& a.1 < u64::MAX
    &&& b.1 == a.1 + 1
    &&& free_in(table, b.0, b.1, Some(entity))
    &&& b.0 != a.0 ==> {
        &&& manhattan(a.0, b.0) == 1
        &&& highways.within(b.0)
        &&& grid.passable(b.0)
        &&& !blocked_in(obstacles, b.0, Some(entity))
        &&& edge_free_in(table, a.0, b.0, a.1, Some(entity))
    }
}

/// `path` is a trajectory that the agent `entity` may follow from `start`
/// at `start_tick`: it begins there, each entry follows from the one before
/// by an allowed wait or move, and no entry lies past `last_tick`.
pub open spec fn plan_allowed(
    grid: &WarehouseGrid,
    highways: &HighwayGraph,
    obstacles: Map<GridPos, AgentId>,
    table: Map<SpaceTimeKey, AgentId>,
    entity: AgentId,
    start: GridPos,
    start_tick: u64,
    last_tick: u64,
    path: Seq<(GridPos, u64)>,
) -> bool {
    &&& path.len() >= 1
    &&& path[0] == (start, start_tick)
    &&& forall|i: int|
        0 <= i < path.len() - 1 ==> step_allowed(
            grid,
            highways,
            obstacles,
            table,
            entity,
            #[trigger] path[i],
            path[i + 1],
        )
    &&& forall|i: int| 0 <= i < path.len() ==> start_tick <= (#[trigger] path[i]).1 <= last_tick
}

/// What one search is asked: from where, to where, from which tick, up to
/// which tick, for whom.
pub struct Query {
    pub start: GridPos,
    pub goal: GridPos,
    pub start_tick: u64,
    pub last_tick: u64,
    pub entity: AgentId,
}

/// What a search holds between two steps: the nodes that wait, how many
/// nodes were inserted so far, the nodes that are closed, each under the
/// code of its slot, and the node nearest to the goal so far.
#[verifier::ext_equal]
pub struct SearchState {
    pub open: Set<SpaceTimeNode>,
    pub pushed: u64,
    pub closed: Map<u128, SpaceTimeNode>,
    pub best: Option<SpaceTimeNode>,
}

/// The search state that an open list, a closed set and a best node make
/// up.
pub open spec fn search_state(
    open: &OpenList,
    closed: Map<u128, SpaceTimeNode>,
    best: Option<SpaceTimeNode>,
) -> SearchState {
    SearchState { open: open@, pushed: open.pushed(), closed, best }
}

/// The trajectory that leads to the node `n`: the trajectory to the closed
/// node from which it was reached, and then its own slot.
pub open spec fn trail(closed: Map<u128, SpaceTimeNode>, n: SpaceTimeNode) -> Seq<(GridPos, u64)>
    decreases n.tick,
{
    match n.parent {
        None => seq![(n.pos, n.tick)],
        Some(p) => {
            let from = closed[slot_code(p.0, p.1)];
            if closed.contains_key(slot_code(p.0, p.1)) && from.tick < n.tick {
                trail(closed, from).push((n.pos, n.tick))
            } else {
                seq![(n.pos, n.tick)]
            }
        },
    }
}

/// What a planner reads: the floor, the floor plan, the standing agents,
/// the reservations, how far ahead it looks and how much weight it gives
/// to the distance estimate, in tenths.
pub struct Env {
    pub grid: WarehouseGrid,
    pub highways: HighwayGraph,
    pub obstacles: Map<GridPos, AgentId>,
    pub table: Map<SpaceTimeKey, AgentId>,
    pub horizon: u64,
    pub weight: u32,
}

/// The search state after the node for `pos` at `tick`, reached from
/// `parent` at cost `g_cost`, was offered to the open list: it is
/// inserted unless its slot is closed already.
pub open spec fn offered(
    env: Env,
    s: SearchState,
    pos: GridPos,
    tick: u64,
    g_cost: u128,
    parent: (GridPos, u64),
    q: &Query,
) -> SearchState {
    if s.closed.contains_key(slot_code(pos, tick)) {
        s
    } else {
        SearchState {
            open: s.open.insert(
                SpaceTimeNode {
                    pos,
                    tick,
                    g_cost,
                    f_cost: (g_cost + manhattan(pos, q.goal) * env.weight) as u128,
                    parent: Some(parent),
                    seq: s.pushed,
                },
            ),
            pushed: (s.pushed + 1) as u64,
            ..s
        }
    }
}

/// Whether the agent of the query may move from the node `current` to the
/// neighboring cell `to` of the floor plan.
pub open spec fn can_enter(env: Env, current: SpaceTimeNode, to: GridPos, q: &Query) -> bool {
    &&& env.grid.passable(to)
    &&& !blocked_in(env.obstacles, to, Some(q.entity))
    &&& free_in(env.table, to, (current.tick + 1) as u64, Some(q.entity))
    &&& edge_free_in(env.table, current.pos, to, current.tick, Some(q.entity))
}

/// The search state after the first `k` of the neighboring `cells` of the
/// node `current` were tried in turn.
pub open spec fn moved_all(
    env: Env,
    s: SearchState,
    current: SpaceTimeNode,
    cells: Seq<GridPos>,
    k: int,
    q: &Query,
) -> SearchState
    decreases k,
{
    if k <= 0 {
        s
    } else {
        let before = moved_all(env, s, current, cells, k - 1, q);
        if can_enter(env, current, cells[k - 1], q) {
            offered(
                env,
                before,
                cells[k - 1],
                (current.tick + 1) as u64,
                (current.g_cost + MOVE_COST) as u128,
                (current.pos, current.tick),
                q,
            )
        } else {
            before
        }
    }
}

/// The search state after the node `current` was expanded: first its wait,
/// then its moves to the north, east, south and west.
pub open spec fn expanded(env: Env, s: SearchState, current: SpaceTimeNode, q: &Query) -> SearchState {
    let waited = if free_in(env.table, current.pos, (current.tick + 1) as u64, Some(q.entity)) {
        offered(
            env,
            s,
            current.pos,
            (current.tick + 1) as u64,
            (current.g_cost + WAIT_COST) as u128,
            (current.pos, current.tick),
            q,
        )
    } else {
        s
    };
    let cells = env.highways.neighbor_seq(current.pos);
    moved_all(env, waited, current, cells, cells.len() as int, q)
}

/// The search state after the node `current`, taken from the open list,
/// was handled: it is closed and expanded, unless it lies at the end of
/// the horizon or its slot is closed already.
pub open spec fn visited(env: Env, s: SearchState, current: SpaceTimeNode, q: &Query) -> SearchState {
    if current.tick < q.last_tick && !s.closed.contains_key(slot_code(current.pos, current.tick)) {
        expanded(
            env,
            SearchState { closed: s.closed.insert(slot_code(current.pos, current.tick), current), ..s },
            current,
            q,
        )
    } else {
        s
    }
}

/// The node on which the search ends, and the closed set at that point,
/// when it goes on from the state `s` and may still take `fuel` nodes
/// from the open list.
///
/// Each step takes the node that leaves the open list first. On the goal
/// the search ends with that node. Otherwise the node becomes the best so
/// far if it is nearer to the goal than the best before, and is handled.
/// When no node waits or no fuel is left, the search ends with the best
/// node so far.
pub open spec fn searched(env: Env, s: SearchState, q: &Query, fuel: nat) -> (
    Option<SpaceTimeNode>,
    Map<u128, SpaceTimeNode>,
)
    decreases fuel,
{
    if fuel == 0 || s.open == Set::<SpaceTimeNode>::empty() {
        (s.best, s.closed)
    } else {
        let current = first_node(s.open);
        if current.pos == q.goal {
            (Some(current), s.closed)
        } else {
            let best = match s.best {
                None => Some(current),
                Some(b) => if manhattan(current.pos, q.goal) < manhattan(b.pos, q.goal) {
                    Some(current)
                } else {
                    Some(b)
                },
            };
            searched(
                env,
                visited(env, SearchState { open: s.open.remove(current), best, ..s }, current, q),
                q,
                (fuel - 1) as nat,
            )
        }
    }
}

/// The state in which the search for the query begins: only the start
/// waits, and nothing is closed.
pub open spec fn initial_state(q: &Query) -> SearchState {
    SearchState {
        open: Set::<SpaceTimeNode>::empty().insert(
            SpaceTimeNode {
                pos: q.start,
                tick: q.start_tick,
                g_cost: 0,
                f_cost: manhattan(q.start, q.goal) as u128,
                parent: None,
                seq: 0,
            },
        ),
        pushed: 1,
        closed: Map::empty(),
        best: None,
    }
}

/// The trajectory that a planner that reads `env` returns for `entity`
/// from `start` at `start_tick` towards `goal`.
///
/// With the start on the goal it is the start alone. With a standing agent
/// on the goal there is none. Otherwise it is the trajectory to the node on
/// which the search ends, if that trajectory leaves the start.
pub open spec fn planned(env: Env, start: GridPos, goal: GridPos, start_tick: u64, entity: AgentId) -> Option<
    Seq<(GridPos, u64)>,
> {
    if start == goal {
        Some(seq![(start, start_tick)])
    } else if blocked_in(env.obstacles, goal, Some(entity)) {
        None
    } else {
        let q = Query { start, goal, start_tick, last_tick: end_tick(start_tick, env.horizon), entity };
        let (end, closed) = searched(env, initial_state(&q), &q, MAX_ITERATIONS as nat);
        match end {
            Some(n) => if trail(closed, n).len() > 1 {
                Some(trail(closed, n))
            } else {
                None
            },
            None => None,
        }
    }
}

/// A planner for one planning cycle: it reads the floor, the reservations
/// and the standing agents, and changes none of them.
pub struct PbsPlanner<'a> {
    grid: &'a WarehouseGrid,
    highways: &'a HighwayGraph,
    space_time: &'a SpaceTimeTable,
    static_obstacles: &'a StaticObstacles,
    config: &'a PbsConfig,
}

/// The path in the opposite order.
fn reverse_path(path: &Vec<(GridPos, u64)>) -> (r: Vec<(GridPos, u64)>)
    ensures
        r@.len() == path@.len(),
        forall|i: int| 0 <= i < r@.len() ==> #[trigger] r@[i] == path@[path@.len() - 1 - i],
{
    let n = path.len();
    let mut r: Vec<(GridPos, u64)> = Vec::with_capacity(n);
    let mut i: usize = n;
    while i > 0
        invariant
            i <= n,
            n == path@.len(),
            r@.len() == n - i,
            forall|j: int| 0 <= j < r@.len() ==> #[trigger] r@[j] == path@[n - 1 - j],
        decreases i,
    {
        i -= 1;
        r.push(path[i]);
    }
    r
}

impl<'a> PbsPlanner<'a> {
    /// What the planner reads.
    pub closed spec fn env(&self) -> Env {
        Env {
            grid: *self.grid,
            highways: *self.highways,
            obstacles: self.static_obstacles@,
            table: self.space_time@,
            horizon: self.config.horizon,
            weight: self.config.heuristic_weight_tenths,
        }
    }

    /// The floor that the planner reads.
    pub open spec fn grid(&self) -> &WarehouseGrid {
        &self.env().grid
    }

    /// The floor plan that the planner reads.
    pub open spec fn highways(&self) -> &HighwayGraph {
        &self.env().highways
    }

    /// The reservations that the planner respects.
    pub open spec fn table(&self) -> Map<SpaceTimeKey, AgentId> {
        self.env().table
    }

    /// The standing agents that the planner avoids.
    pub open spec fn obstacles(&self) -> Map<GridPos, AgentId> {
        self.env().obstacles
    }

    /// How many ticks ahead the planner looks.
    pub open spec fn horizon(&self) -> u64 {
        self.env().horizon
    }

    /// The weight of the distance estimate, in tenths.
    pub open spec fn weight(&self) -> u32 {
        self.env().weight
    }

    /// Whether `a` to `b` is an allowed step for `entity` in what this
    /// planner reads.
    pub open spec fn allows_step(&self, entity: AgentId, a: (GridPos, u64), b: (GridPos, u64)) -> bool {
        step_allowed(self.grid(), self.highways(), self.obstacles(), self.table(), entity, a, b)
    }

    /// Whether `path` is an allowed trajectory for `entity` in what this
    /// planner reads.
    pub open spec fn allows_plan(
        &self,
        entity: AgentId,
        start: GridPos,
        start_tick: u64,
        path: Seq<(GridPos, u64)>,
    ) -> bool {
        plan_allowed(
            self.grid(),
            self.highways(),
            self.obstacles(),
            self.table(),
            entity,
            start,
            start_tick,
            end_tick(start_tick, self.horizon()),
            path,
        )
    }

    /// A planner that reads the given floor, reservations and standing
    /// agents.
    pub fn new(
        grid: &'a WarehouseGrid,
        highways: &'a HighwayGraph,
        space_time: &'a SpaceTimeTable,
        static_obstacles: &'a StaticObstacles,
        config: &'a PbsConfig,
    ) -> (p: PbsPlanner<'a>)
        ensures
            p.env() == (Env {
                grid: *grid,
                highways: *highways,
                obstacles: static_obstacles@,
                table: space_time@,
                horizon: config.horizon,
                weight: config.heuristic_weight_tenths,
            }),
    {
        PbsPlanner { grid, highways, space_time, static_obstacles, config }
    }

    /// The search node `n` hangs together with the closed set: it lies
    /// within the ticks of the search, its cost is what its ticks allow,
    /// and it is the start itself or was reached by an allowed step from a
    /// closed node.
    spec fn linked(&self, closed: Map<u128, SpaceTimeNode>, n: SpaceTimeNode, q: &Query) -> bool {
        &&& q.start_tick <= n.tick <= q.last_tick
        &&& n.g_cost <= MOVE_COST * (n.tick - q.start_tick)
        &&& match n.parent {
            None => n.pos == q.start && n.tick == q.start_tick,
            Some(p) => closed.contains_key(slot_code(p.0, p.1)) && self.allows_step(
                q.entity,
                p,
                (n.pos, n.tick),
            ),
        }
    }

    /// Every closed node is stored under its own slot and hangs together
    /// with the closed set.
    spec fn closed_sound(&self, closed: Map<u128, SpaceTimeNode>, q: &Query) -> bool {
        forall|c: u128|
            closed.contains_key(c) ==> c == slot_code((#[trigger] closed[c]).pos, closed[c].tick)
                && self.linked(closed, closed[c], q)
    }

    /// Every waiting node hangs together with the closed set.
    spec fn open_sound(&self, open: Set<SpaceTimeNode>, closed: Map<u128, SpaceTimeNode>, q: &Query) -> bool {
        forall|n: SpaceTimeNode| #[trigger] open.contains(n) ==> self.linked(closed, n, q)
    }

    /// Whether `entity` may stay on `pos` into the tick `to_tick`.
    fn is_valid_wait(&self, pos: &GridPos, to_tick: u64, entity: AgentId) -> (ok: bool)
        ensures
            ok == free_in(self.table(), *pos, to_tick, Some(entity)),
    {
        self.space_time.is_free(*pos, to_tick, Some(entity))
    }

    /// Whether `entity` may move from `from` to `to` between the two ticks,
    /// as far as the reservations go.
    fn is_valid_move(&self, from: &GridPos, to: &GridPos, from_tick: u64, to_tick: u64, entity: AgentId) -> (ok:
        bool)
        requires
            from_tick < u64::MAX,
            to_tick == from_tick + 1,
        ensures
            ok == (free_in(self.table(), *to, to_tick, Some(entity)) && edge_free_in(
                self.table(),
                *from,
                *to,
                from_tick,
                Some(entity),
            )),
    {
        if !self.space_time.is_free(*to, to_tick, Some(entity)) {
            return false;
        }
        self.space_time.is_edge_free(*from, *to, from_tick, Some(entity))
    }

    /// The estimated cost from `from` to `to`: their Manhattan distance.
    fn heuristic(&self, from: GridPos, to: GridPos) -> (h: u64)
        ensures
            h == manhattan(from, to),
            h <= 0x2_0000_0000,
    {
        from.distance(&to)
    }

    /// Puts the node for `pos` at `tick` on the open list, unless that slot
    /// is closed already.
    fn try_add_neighbor(
        &self,
        open: &mut OpenList,
        closed: &FxHashMap<u128, SpaceTimeNode>,
        pos: GridPos,
        tick: u64,
        g_cost: u128,
        parent_pos: GridPos,
        parent_tick: u64,
        q: &Query,
        Ghost(best): Ghost<Option<SpaceTimeNode>>,
    )
        requires
            old(open).wf(),
            old(open).pushed() < u64::MAX,
            self.open_sound(old(open)@, closed@, q),
            q.start_tick <= tick <= q.last_tick,
            g_cost <= MOVE_COST * (tick - q.start_tick),
            closed@.contains_key(slot_code(parent_pos, parent_tick)),
            self.allows_step(q.entity, (parent_pos, parent_tick), (pos, tick)),
        ensures
            final(open).wf(),
            old(open).pushed() <= final(open).pushed() <= old(open).pushed() + 1,
            self.open_sound(final(open)@, closed@, q),
            search_state(final(open), closed@, best) == offered(
                self.env(),
                search_state(old(open), closed@, best),
                pos,
                tick,
                g_cost,
                (parent_pos, parent_tick),
                q,
            ),
    {
        if map_get(closed, SpaceTimeKey::new(pos, tick).encode()).is_some() {
            return ;
        }
        let h: u64 = self.heuristic(pos, q.goal);
        let w: u32 = self.config.heuristic_weight_tenths;
        assert(0 <= h * w <= 0x2_0000_0000 * 0x1_0000_0000) by (nonlinear_arith)
            requires
                0 <= h <= 0x2_0000_0000,
                0 <= w <= 0xffff_ffff,
        ;
        let weighted: u128 = h as u128 * w as u128;
        open.push(pos, tick, g_cost, g_cost + weighted, Some((parent_pos, parent_tick)));
        proof {
            assert(search_state(open, closed@, best) =~= offered(
                self.env(),
                search_state(old(open), closed@, best),
                pos,
                tick,
                g_cost,
                (parent_pos, parent_tick),
                q,
            ));
        }
    }

    /// The trajectory to a linked node is its own slot after the trajectory
    /// to its parent, or its own slot alone when it has no parent.
    proof fn lemma_trail_unfolds(&self, closed: Map<u128, SpaceTimeNode>, n: SpaceTimeNode, q: &Query)
        requires
            self.closed_sound(closed, q),
            self.linked(closed, n, q),
        ensures
            match n.parent {
                None => trail(closed, n) == seq![(n.pos, n.tick)],
                Some(p) => trail(closed, n) == trail(closed, closed[slot_code(p.0, p.1)]).push((n.pos, n.tick)),
            },
    {
        if n.parent.is_some() {
            let p = n.parent.unwrap();
            let from = closed[slot_code(p.0, p.1)];
            lemma_slot_code_injective(from.pos, from.tick, p.0, p.1);
        }
    }

    /// Walks back from `end` through the parents in the closed set and
    /// returns the trajectory from the start to `end`.
    fn reconstruct_path(
        &self,
        closed: &FxHashMap<u128, SpaceTimeNode>,
        end: SpaceTimeNode,
        Ghost(q): Ghost<&Query>,
    ) -> (path: Vec<(GridPos, u64)>)
        requires
            self.closed_sound(closed@, q),
            self.linked(closed@, end, q),
        ensures
            plan_allowed(
                self.grid(),
                self.highways(),
                self.obstacles(),
                self.table(),
                q.entity,
                q.start,
                q.start_tick,
                q.last_tick,
                path@,
            ),
            path@[path@.len() - 1] == (end.pos, end.tick),
            path@.len() == 1 <==> end.parent.is_none(),
            path@ == trail(closed@, end),
    {
        let mut back: Vec<(GridPos, u64)> = Vec::new();
        back.push((end.pos, end.tick));
        let mut current: Option<(GridPos, u64)> = end.parent;
        let ghost node: SpaceTimeNode = end;
        proof {
            assert(back@.reverse() =~= seq![(end.pos, end.tick)]);
            self.lemma_trail_unfolds(closed@, end, q);
        }
        while current.is_some()
            invariant
                self.closed_sound(closed@, q),
                back@.len() >= 1,
                back@[0] == (end.pos, end.tick),
                back@.len() == 1 ==> current == end.parent,
                forall|i: int|
                    0 <= i < back@.len() - 1 ==> self.allows_step(q.entity, back@[i + 1], #[trigger] back@[i]),
                forall|i: int| 0 <= i < back@.len() ==> q.start_tick <= (#[trigger] back@[i]).1 <= q.last_tick,
                match current {
                    Some(c) => closed@.contains_key(slot_code(c.0, c.1)) && self.allows_step(
                        q.entity,
                        c,
                        back@[back@.len() - 1],
                    ),
                    None => back@[back@.len() - 1] == (q.start, q.start_tick),
                },
                self.linked(closed@, node, q),
                node.parent == current,
                back@[back@.len() - 1] == (node.pos, node.tick),
                trail(closed@, end) == trail(closed@, node) + back@.reverse().subrange(1, back@.len() as int),
            decreases back@[back@.len() - 1].1 - q.start_tick + (if current.is_some() { 1int } else { 0int }),
        {
            let (pos, tick) = current.unwrap();
            let ghost code = slot_code(pos, tick);
            let ghost before = back@;
            proof {
                lemma_slot_code_injective(closed@[code].pos, closed@[code].tick, pos, tick);
                self.lemma_trail_unfolds(closed@, node, q);
                self.lemma_trail_unfolds(closed@, closed@[code], q);
            }
            back.push((pos, tick));
            current = match map_get(closed, SpaceTimeKey::new(pos, tick).encode()) {
                Some(n) => n.parent,
                None => None,
            };
            proof {
                let up = closed@[code];
                let r0 = before.reverse();
                let r1 = back@.reverse();
                assert(r1 =~= seq![(pos, tick)] + r0);
                assert(r1.subrange(1, r1.len() as int) =~= r0);
                assert(r0 =~= seq![(node.pos, node.tick)] + r0.subrange(1, r0.len() as int));
                assert(trail(closed@, node) == trail(closed@, up).push((node.pos, node.tick)));
                assert(trail(closed@, up).push((node.pos, node.tick)) + r0.subrange(1, r0.len() as int) =~= trail(
                    closed@,
                    up,
                ) + r0);
                node = up;
            }
        }
        let path = reverse_path(&back);
        proof {
            assert(trail(closed@, node) =~= seq![(node.pos, node.tick)]);
            let r = back@.reverse();
            assert(r =~= seq![(node.pos, node.tick)] + r.subrange(1, r.len() as int));
            assert(path@ =~= r);
            let n = back@.len() as int;
            assert forall|i: int| 0 <= i < path@.len() - 1 implies self.allows_step(
                q.entity,
                #[trigger] path@[i],
                path@[i + 1],
            ) by {
                assert(path@[i] == back@[n - 1 - i]);
                assert(path@[i + 1] == back@[n - 2 - i]);
                assert(self.allows_step(q.entity, back@[(n - 2 - i) + 1], back@[n - 2 - i]));
            }
            assert forall|i: int| 0 <= i < path@.len() implies q.start_tick <= (#[trigger] path@[i]).1
                <= q.last_tick by {
                assert(path@[i] == back@[n - 1 - i]);
            }
        }
        path
    }

    /// Expands the node `current`, which was just closed: puts its wait and
    /// its allowed moves on the open list.
    fn expand(
        &self,
        open: &mut OpenList,
        closed: &FxHashMap<u128, SpaceTimeNode>,
        current: &SpaceTimeNode,
        q: &Query,
        Ghost(best): Ghost<Option<SpaceTimeNode>>,
    )
        requires
            self.grid().wf(),
            old(open).wf(),
            old(open).pushed() + 5 <= u64::MAX,
            self.closed_sound(closed@, q),
            self.open_sound(old(open)@, closed@, q),
            closed@.contains_key(slot_code(current.pos, current.tick)),
            q.start_tick <= current.tick < q.last_tick,
            current.g_cost <= MOVE_COST * (current.tick - q.start_tick),
        ensures
            final(open).wf(),
            old(open).pushed() <= final(open).pushed() <= old(open).pushed() + 5,
            self.open_sound(final(open)@, closed@, q),
            search_state(final(open), closed@, best) == expanded(
                self.env(),
                search_state(old(open), closed@, best),
                *current,
                q,
            ),
    {
        let next_tick: u64 = current.tick + 1;
        if self.is_valid_wait(&current.pos, next_tick, q.entity) {
            self.try_add_neighbor(
                open,
                closed,
                current.pos,
                next_tick,
                current.g_cost + WAIT_COST,
                current.pos,
                current.tick,
                q,
                Ghost(best),
            );
        }
        let ghost waited = search_state(open, closed@, best);
        let neighbors = self.highways.legal_neighbors(current.pos);
        let mut i: usize = 0;
        while i < neighbors.len()
            invariant
                self.grid().wf(),
                i <= neighbors@.len() <= 4,
                open.wf(),
                old(open).pushed() <= open.pushed() <= old(open).pushed() + 1 + i,
                old(open).pushed() + 5 <= u64::MAX,
                self.open_sound(open@, closed@, q),
                closed@.contains_key(slot_code(current.pos, current.tick)),
                q.start_tick <= current.tick < q.last_tick,
                next_tick == current.tick + 1,
                current.g_cost <= MOVE_COST * (current.tick - q.start_tick),
                forall|j: int|
                    0 <= j < neighbors@.len() ==> manhattan(current.pos, #[trigger] neighbors@[j]) == 1
                        && self.highways().within(neighbors@[j]),
                search_state(open, closed@, best) == moved_all(self.env(), waited, *current, neighbors@, i as int, q),
            decreases neighbors@.len() - i,
        {
            let neighbor = neighbors[i];
            let enter: bool = self.grid.is_passable(neighbor) && !self.static_obstacles.is_blocked(
                neighbor,
                Some(q.entity),
            ) && self.is_valid_move(&current.pos, &neighbor, current.tick, next_tick, q.entity);
            assert(enter == can_enter(self.env(), *current, neighbor, q));
            if enter {
                self.try_add_neighbor(
                    open,
                    closed,
                    neighbor,
                    next_tick,
                    current.g_cost + MOVE_COST,
                    current.pos,
                    current.tick,
                    q,
                    Ghost(best),
                );
            }
            i += 1;
        }
    }

    /// Closing a node under its own slot keeps every node linked that was
    /// linked before.
    proof fn lemma_close_keeps_links(
        &self,
        closed: Map<u128, SpaceTimeNode>,
        open: Set<SpaceTimeNode>,
        node: SpaceTimeNode,
        q: &Query,
    )
        requires
            self.closed_sound(closed, q),
            self.open_sound(open, closed, q),
            self.linked(closed, node, q),
            !closed.contains_key(slot_code(node.pos, node.tick)),
        ensures
            self.closed_sound(closed.insert(slot_code(node.pos, node.tick), node), q),
            self.open_sound(open, closed.insert(slot_code(node.pos, node.tick), node), q),
            forall|n: SpaceTimeNode|
                self.linked(closed, n, q) ==> #[trigger] self.linked(
                    closed.insert(slot_code(node.pos, node.tick), node),
                    n,
                    q,
                ),
    {
        let after = closed.insert(slot_code(node.pos, node.tick), node);
        assert forall|n: SpaceTimeNode| self.linked(closed, n, q) implies #[trigger] self.linked(
            after,
            n,
            q,
        ) by {
            if n.parent.is_some() {
                let p = n.parent.unwrap();
                assert(closed.contains_key(slot_code(p.0, p.1)));
                assert(after.contains_key(slot_code(p.0, p.1)));
            }
        }
        assert forall|c: u128| after.contains_key(c) implies c == slot_code(
            (#[trigger] after[c]).pos,
            after[c].tick,
        ) && self.linked(after, after[c], q) by {
            if c != slot_code(node.pos, node.tick) {
                assert(closed.contains_key(c));
                assert(self.linked(closed, closed[c], q));
            }
        }
        assert forall|n: SpaceTimeNode| #[trigger] open.contains(n) implies self.linked(after, n, q) by {
            assert(self.linked(closed, n, q));
        }
    }

    /// Handles a node taken from the open list: unless it lies at the end
    /// of the horizon or its slot is closed already, closes it and expands
    /// it.
    fn visit(
        &self,
        open: &mut OpenList,
        closed: &mut FxHashMap<u128, SpaceTimeNode>,
        current: &SpaceTimeNode,
        q: &Query,
        Ghost(best): Ghost<Option<SpaceTimeNode>>,
    )
        requires
            self.grid().wf(),
            old(open).wf(),
            old(open).pushed() + 5 <= u64::MAX,
            self.closed_sound(old(closed)@, q),
            self.open_sound(old(open)@, old(closed)@, q),
            self.linked(old(closed)@, *current, q),
        ensures
            final(open).wf(),
            old(open).pushed() <= final(open).pushed() <= old(open).pushed() + 5,
            self.closed_sound(final(closed)@, q),
            self.open_sound(final(open)@, final(closed)@, q),
            forall|n: SpaceTimeNode|
                self.linked(old(closed)@, n, q) ==> #[trigger] self.linked(final(closed)@, n, q),
            search_state(final(open), final(closed)@, best) == visited(
                self.env(),
                search_state(old(open), old(closed)@, best),
                *current,
                q,
            ),
    {
        if current.tick < q.last_tick {
            let code: u128 = SpaceTimeKey::new(current.pos, current.tick).encode();
            if map_get(closed, code).is_none() {
                proof {
                    self.lemma_close_keeps_links(closed@, open@, *current, q);
                }
                map_insert(closed, code, *current);
                proof {
                    assert(search_state(open, closed@, best) =~= (SearchState {
                        closed: old(closed)@.insert(slot_code(current.pos, current.tick), *current),
                        ..search_state(old(open), old(closed)@, best)
                    }));
                }
                self.expand(open, closed, current, q, Ghost(best));
            }
        }
    }

    /// Plans a trajectory for `entity` from `start` at `start_tick` towards
    /// `goal`.
    ///
    /// The result is the trajectory to the node on which the search ends.
    /// It is a trajectory that the floor, the standing agents and the
    /// reservations of the others allow. It ends on the goal or, where the
    /// search ran out before it got there, on a cell that is nearer to the
    /// goal than the start is. When the start is the goal the trajectory is
    /// the start alone; when a standing agent occupies the goal there is
    /// none.
    pub fn plan_path(&self, start: GridPos, goal: GridPos, start_tick: u64, entity: AgentId) -> (plan: Option<
        Vec<(GridPos, u64)>,
    >)
        requires
            self.grid().wf(),
        ensures
            plan.is_some() == planned(self.env(), start, goal, start_tick, entity).is_some(),
            plan.is_some() ==> plan.unwrap()@ == planned(self.env(), start, goal, start_tick, entity).unwrap(),
            start == goal ==> plan.is_some() && plan.unwrap()@ == seq![(start, start_tick)],
            start != goal && blocked_in(self.obstacles(), goal, Some(entity)) ==> plan.is_none(),
            plan.is_some() ==> {
                let path = plan.unwrap()@;
                &&& self.allows_plan(entity, start, start_tick, path)
                &&& start != goal ==> path.len() >= 2
                &&& path[path.len() - 1].0 == goal || manhattan(path[path.len() - 1].0, goal) < manhattan(
                    start,
                    goal,
                )
            },
    {
        if start == goal {
            let mut path: Vec<(GridPos, u64)> = Vec::new();
            path.push((start, start_tick));
            assert(path@ =~= seq![(start, start_tick)]);
            return Some(path);
        }
        if self.static_obstacles.is_blocked(goal, Some(entity)) {
            return None;
        }
        let horizon_end: u64 = start_tick.saturating_add(self.config.horizon);
        let q = Query { start, goal, start_tick, last_tick: horizon_end, entity };
        let mut open = OpenList::new();
        let mut closed: FxHashMap<u128, SpaceTimeNode> = FxHashMap::default();
        let h: u64 = self.heuristic(start, goal);
        open.push(start, start_tick, 0, h as u128, None);
        let ghost first = SpaceTimeNode {
            pos: start,
            tick: start_tick,
            g_cost: 0,
            f_cost: h as u128,
            parent: None,
            seq: 0,
        };
        let ghost target = searched(self.env(), initial_state(&q), &q, MAX_ITERATIONS as nat);
        proof {
            assert(search_state(&open, closed@, None) =~= initial_state(&q));
        }
        let mut iterations: u32 = 0;
        let mut exhausted: bool = false;
        let mut reached: Option<SpaceTimeNode> = None;
        let mut best_node: Option<SpaceTimeNode> = None;
        while iterations < MAX_ITERATIONS && !exhausted && reached.is_none()
            invariant
                self.grid().wf(),
                q.start == start,
                q.goal == goal,
                first.pos == start,
                first.parent.is_none(),
                iterations <= MAX_ITERATIONS,
                open.wf(),
                open.pushed() <= 1 + 5 * iterations,
                self.closed_sound(closed@, &q),
                self.open_sound(open@, closed@, &q),
                match reached {
                    None => true,
                    Some(r) => r.pos == goal && self.linked(closed@, r, &q),
                },
                match best_node {
                    None => reached.is_some() || (iterations == 0 && open@ == Set::<SpaceTimeNode>::empty().insert(
                        first,
                    )),
                    Some(b) => self.linked(closed@, b, &q) && manhattan(b.pos, goal) <= manhattan(start, goal)
                        && (b.parent.is_some() ==> manhattan(b.pos, goal) < manhattan(start, goal)),
                },
                target == (if reached.is_some() {
                    (reached, closed@)
                } else if exhausted {
                    (best_node, closed@)
                } else {
                    searched(
                        self.env(),
                        search_state(&open, closed@, best_node),
                        &q,
                        (MAX_ITERATIONS - iterations) as nat,
                    )
                }),
            decreases
                    MAX_ITERATIONS - iterations + (if exhausted || reached.is_some() {
                        0int
                    } else {
                        1int
                    }),
        {
            let ghost before = search_state(&open, closed@, best_node);
            proof {
                open.lemma_count_zero();
            }
            match open.pop() {
                None => {
                    exhausted = true;
                },
                Some(current) => {
                    iterations += 1;
                    if current.pos == goal {
                        reached = Some(current);
                    } else {
                        let better: bool = match best_node {
                            None => true,
                            Some(b) => current.pos.distance(&goal) < b.pos.distance(&goal),
                        };
                        if better {
                            best_node = Some(current);
                        }
                        proof {
                            assert(search_state(&open, closed@, best_node) =~= (SearchState {
                                open: before.open.remove(current),
                                best: best_node,
                                ..before
                            }));
                        }
                        self.visit(&mut open, &mut closed, &current, &q, Ghost(best_node));
                    }
                },
            }
        }
        let end: Option<SpaceTimeNode> = if reached.is_some() { reached } else { best_node };
        match end {
            Some(node) => {
                let path = self.reconstruct_path(&closed, node, Ghost(&q));
                if path.len() > 1 {
                    Some(path)
                } else {
                    None
                }
            },
            None => None,
        }
    }
}

} // verus!
