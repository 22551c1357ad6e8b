//! The batch replanner: every few ticks it plans for the whole fleet in the
//! order of priority, each agent around the reservations of those before
//! it.

use crate::grid::WarehouseGrid;
use crate::highways::HighwayGraph;
use crate::planner::blocked_in;
use crate::planner::end_tick;
use crate::planner::plan_allowed;
use crate::planner::planned;
use crate::planner::step_allowed;
use crate::planner::Env;
use crate::planner::PbsConfig;
use crate::planner::PbsPlanner;
use crate::planner::StaticObstacles;
use crate::robot::PlannedPath;
use crate::robot::Robot;
use crate::robot::RobotState;
use crate::spacetime::free_in;
use crate::spacetime::path_covers;
use crate::spacetime::path_free_in;
use crate::spacetime::swept;
use crate::spacetime::with_path;
use crate::spacetime::Sweep;
use crate::spacetime::SpaceTimeKey;
use crate::spacetime::SpaceTimeTable;
use crate::types::manhattan;
use crate::types::AgentId;
use crate::types::GridPos;
use vstd::prelude::*;

verus! {

/// The agent with its priority brought up to date.
pub open spec fn reprioritized(r: Robot) -> Robot {
    Robot { priority: r.due_priority(), ..r }
}

/// Gives every agent the priority that its state, load and battery call
/// for.
pub fn update_priorities_system(fleet: &mut Vec<Robot>)
    ensures
        final(fleet)@.len() == old(fleet)@.len(),
        forall|i: int| 0 <= i < old(fleet)@.len() ==> #[trigger] final(fleet)@[i] == reprioritized(old(fleet)@[i]),
{
    let n: usize = fleet.len();
    let mut i: usize = 0;
    while i < n
        invariant
            i <= n,
            n == fleet@.len(),
            n == old(fleet)@.len(),
            forall|j: int| 0 <= j < i ==> #[trigger] fleet@[j] == reprioritized(old(fleet)@[j]),
            forall|j: int| i <= j < n ==> #[trigger] fleet@[j] == old(fleet)@[j],
        decreases n - i,
    {
        let p: u8 = fleet[i].compute_priority();
        fleet[i].priority = p;
        i += 1;
    }
}

/// The agent at place `a` of the fleet plans before the agent at place
/// `b`: its score is lower, or the scores are equal and it comes first in
/// the fleet.
pub open spec fn plans_before(fleet: Seq<Robot>, a: int, b: int) -> bool {
    fleet[a].planning_score() < fleet[b].planning_score() || (fleet[a].planning_score()
        == fleet[b].planning_score() && a < b)
}

/// The place `i` occurs in `order`.
pub open spec fn listed(order: Seq<usize>, i: int) -> bool {
    exists|m: int| 0 <= m < order.len() && #[trigger] order[m] == i
}

/// `order` lists the places of the fleet, each once, in the order in which
/// the agents plan.
pub open spec fn is_planning_order(fleet: Seq<Robot>, order: Seq<usize>) -> bool {
    &&& order.len() == fleet.len()
    &&& forall|m: int| 0 <= m < order.len() ==> (#[trigger] order[m]) < fleet.len()
    &&& forall|i: int| 0 <= i < fleet.len() ==> #[trigger] listed(order, i)
    &&& forall|a: int, b: int|
        0 <= a < b < order.len() ==> plans_before(fleet, (#[trigger] order[a]) as int, (#[trigger] order[b]) as int)
}

/// Two planning orders of one fleet agree up to the place `k`.
proof fn lemma_orders_agree(fleet: Seq<Robot>, first: Seq<usize>, second: Seq<usize>, k: int)
    requires
        is_planning_order(fleet, first),
        is_planning_order(fleet, second),
        0 <= k < fleet.len(),
    ensures
        forall|j: int| 0 <= j <= k ==> first[j] == second[j],
    decreases k,
{
    if k > 0 {
        lemma_orders_agree(fleet, first, second, k - 1);
    }
    let x = first[k] as int;
    let y = second[k] as int;
    if x != y {
        assert(listed(second, x));
        let b = choose|b: int| 0 <= b < second.len() && #[trigger] second[b] == x;
        if b < k {
            assert(plans_before(fleet, first[b] as int, first[k] as int));
        } else {
            assert(plans_before(fleet, second[k] as int, second[b] as int));
        }
        assert(listed(first, y));
        let a = choose|a: int| 0 <= a < first.len() && #[trigger] first[a] == y;
        if a < k {
            assert(plans_before(fleet, second[a] as int, second[k] as int));
        } else {
            assert(plans_before(fleet, first[k] as int, first[a] as int));
        }
    }
}

/// A fleet has one planning order only.
pub proof fn law_planning_order_unique(fleet: Seq<Robot>, first: Seq<usize>, second: Seq<usize>)
    requires
        is_planning_order(fleet, first),
        is_planning_order(fleet, second),
    ensures
        first == second,
{
    if fleet.len() > 0 {
        lemma_orders_agree(fleet, first, second, fleet.len() - 1);
    }
    assert(first =~= second);
}

/// The places of the fleet in the order in which the agents plan: by
/// ascending score, agents of one score in the order of the fleet.
pub fn planning_order(fleet: &Vec<Robot>) -> (order: Vec<usize>)
    ensures
        is_planning_order(fleet@, order@),
{
    let n: usize = fleet.len();
    let mut order: Vec<usize> = Vec::new();
    let mut i: usize = 0;
    while i < n
        invariant
            i <= n,
            n == fleet@.len(),
            order@.len() == i,
            forall|m: int| 0 <= m < i ==> (#[trigger] order@[m]) < i,
            forall|k: int| 0 <= k < i ==> #[trigger] listed(order@, k),
            forall|a: int, b: int|
                0 <= a < b < i ==> plans_before(fleet@, (#[trigger] order@[a]) as int, (#[trigger] order@[b]) as int),
        decreases n - i,
    {
        let ghost prev = order@;
        order.push(i);
        let score: u8 = fleet[i].score();
        let mut j: usize = i;
        proof {
            assert forall|k: int| 0 <= k < i + 1 implies #[trigger] listed(order@, k) by {
                if k < i {
                    assert(listed(prev, k));
                    let m = choose|m: int| 0 <= m < i && #[trigger] prev[m] == k;
                    assert(order@[m] == k);
                } else {
                    assert(order@[i as int] == k);
                }
            }
        }
        while j > 0 && fleet[order[j - 1]].score() > score
            invariant
                j <= i < n,
                n == fleet@.len(),
                order@.len() == i + 1,
                order@[j as int] == i,
                score == fleet@[i as int].planning_score(),
                forall|m: int| 0 <= m < i + 1 ==> (#[trigger] order@[m]) < i + 1,
                forall|m: int| 0 <= m < i + 1 && m != j ==> (#[trigger] order@[m]) < i,
                forall|k: int| 0 <= k < i + 1 ==> #[trigger] listed(order@, k),
                forall|a: int, b: int|
                    0 <= a < b < i + 1 && a != j && b != j ==> plans_before(
                        fleet@,
                        (#[trigger] order@[a]) as int,
                        (#[trigger] order@[b]) as int,
                    ),
                forall|b: int|
                    j < b < i + 1 ==> fleet@[(#[trigger] order@[b]) as int].planning_score() > score,
            decreases j,
        {
            let ghost before = order@;
            let moved: usize = order[j - 1];
            order.set(j, moved);
            order.set(j - 1, i);
            proof {
                assert forall|k: int| 0 <= k < i + 1 implies #[trigger] listed(order@, k) by {
                    assert(listed(before, k));
                    let m = choose|m: int| 0 <= m < i + 1 && #[trigger] before[m] == k;
                    if m == j {
                        assert(order@[j - 1] == k);
                    } else if m == j - 1 {
                        assert(order@[j as int] == k);
                    } else {
                        assert(order@[m] == k);
                    }
                }
            }
            j -= 1;
        }
        i += 1;
    }
    order
}

/// How many ticks from now on every agent's own cell is held for it before
/// planning begins.
pub const ANCHOR_TICKS: u64 = 5;

/// The cells on which the standing agents among the first `n` of the fleet
/// stand, each with its agent.
pub open spec fn standing(fleet: Seq<Robot>, n: int) -> Map<GridPos, AgentId>
    decreases n,
{
    if n <= 0 {
        Map::empty()
    } else {
        let before = standing(fleet, n - 1);
        if fleet[n - 1].state.stationary() {
            before.insert(fleet[n - 1].position, fleet[n - 1].id)
        } else {
            before
        }
    }
}

/// No two agents of the fleet are known by one handle.
pub open spec fn distinct_ids(fleet: Seq<Robot>) -> bool {
    forall|i: int, j: int| 0 <= i < j < fleet.len() ==> (#[trigger] fleet[i]).id != (#[trigger] fleet[j]).id
}

/// The agent `b` is the agent `a` with, at most, another path.
pub open spec fn same_but_path(a: Robot, b: Robot) -> bool {
    b == (Robot { path: b.path, ..a })
}

/// The slot of the waypoint `w`.
pub open spec fn slot(w: (GridPos, u64)) -> SpaceTimeKey {
    SpaceTimeKey { pos: w.0, tick: w.1 }
}

/// `path` begins on `start` at tick `now`; each of its entries is one tick
/// after the one before, on the same cell or on a neighboring floor cell
/// of the plan on which no other agent stands still.
pub open spec fn path_sound(
    grid: &WarehouseGrid,
    highways: &HighwayGraph,
    obstacles: Map<GridPos, AgentId>,
    id: AgentId,
    start: GridPos,
    now: u64,
    path: Seq<(GridPos, u64)>,
) -> bool {
    &&& path.len() >= 1
    &&& path[0] == (start, now)
    &&& forall|i: int|
        0 <= i < path.len() - 1 ==> {
            &&& path[i + 1].1 == (#[trigger] path[i]).1 + 1
            &&& (path[i + 1].0 == path[i].0 || {
                &&& manhattan(path[i].0, path[i + 1].0) == 1
                &&& highways.within(path[i + 1].0)
                &&& grid.passable(path[i + 1].0)
                &&& !blocked_in(obstacles, path[i + 1].0, Some(id))
            })
        }
}

/// Every waypoint of `path` is reserved for `id` in the reservations `m`.
pub open spec fn path_held(m: Map<SpaceTimeKey, AgentId>, id: AgentId, path: Seq<(GridPos, u64)>) -> bool {
    forall|j: int| 0 <= j < path.len() ==> m.contains_key(slot(#[trigger] path[j])) && m[slot(path[j])] == id
}

/// The paths `pa` and `pb` never exchange cells: where both go on from one
/// tick to the next, the one does not enter the cell that the other leaves
/// while the other enters the cell that the one leaves.
pub open spec fn swap_free(pa: Seq<(GridPos, u64)>, pb: Seq<(GridPos, u64)>) -> bool {
    forall|i: int, j: int|
        0 <= i < pa.len() - 1 && 0 <= j < pb.len() - 1 && (#[trigger] pa[i]).1 == (#[trigger] pb[j]).1 && pa[i
            + 1].1 == pb[j + 1].1 ==> !(pa[i].0 == pb[j + 1].0 && pb[j].0 == pa[i + 1].0)
}

/// The paths `pa` and `pb` never claim one cell at one tick.
pub open spec fn meet_free(pa: Seq<(GridPos, u64)>, pb: Seq<(GridPos, u64)>) -> bool {
    forall|i: int, j: int|
        0 <= i < pa.len() && 0 <= j < pb.len() ==> #[trigger] pa[i] != #[trigger] pb[j]
}

/// Two paths that are held in one table for two agents never claim one
/// cell at one tick.
pub proof fn law_held_paths_never_meet(
    m: Map<SpaceTimeKey, AgentId>,
    a: AgentId,
    pa: Seq<(GridPos, u64)>,
    b: AgentId,
    pb: Seq<(GridPos, u64)>,
)
    requires
        a != b,
        path_held(m, a, pa),
        path_held(m, b, pb),
    ensures
        meet_free(pa, pb),
{
    assert forall|i: int, j: int| 0 <= i < pa.len() && 0 <= j < pb.len() implies #[trigger] pa[i]
        != #[trigger] pb[j] by {
        if pa[i] == pb[j] {
            assert(m[slot(pa[i])] == a);
            assert(m[slot(pb[j])] == b);
        }
    }
}

/// A path that the planner allows for `a` around the reservations `m`
/// exchanges cells with no path that is held in `m` for another agent.
pub proof fn lemma_allowed_plan_swap_free(
    grid: &WarehouseGrid,
    highways: &HighwayGraph,
    obstacles: Map<GridPos, AgentId>,
    m: Map<SpaceTimeKey, AgentId>,
    a: AgentId,
    start: GridPos,
    start_tick: u64,
    last_tick: u64,
    pa: Seq<(GridPos, u64)>,
    b: AgentId,
    pb: Seq<(GridPos, u64)>,
)
    requires
        a != b,
        plan_allowed(grid, highways, obstacles, m, a, start, start_tick, last_tick, pa),
        path_held(m, b, pb),
    ensures
        swap_free(pa, pb),
        swap_free(pb, pa),
{
    assert forall|i: int, j: int|
        0 <= i < pa.len() - 1 && 0 <= j < pb.len() - 1 && (#[trigger] pa[i]).1 == (#[trigger] pb[j]).1 && pa[i
            + 1].1 == pb[j + 1].1 implies !(pa[i].0 == pb[j + 1].0 && pb[j].0 == pa[i + 1].0) by {
        if pa[i].0 == pb[j + 1].0 && pb[j].0 == pa[i + 1].0 {
            assert(step_allowed(grid, highways, obstacles, m, a, pa[i], pa[i + 1]));
            assert(m.contains_key(slot(pb[j])) && m[slot(pb[j])] == b);
            assert(m.contains_key(slot(pb[j + 1])) && m[slot(pb[j + 1])] == b);
            if pa[i + 1].0 == pa[i].0 {
                assert(slot(pb[j + 1]) == (SpaceTimeKey { pos: pa[i + 1].0, tick: pa[i + 1].1 }));
            } else {
                assert(slot(pb[j]) == (SpaceTimeKey { pos: pa[i + 1].0, tick: pa[i].1 }));
            }
        }
    }
}

/// The reservations `m` with the cell `pos` held for `id` during `count`
/// ticks from `now` on, wherever nobody held it already.
pub open spec fn anchored(
    m: Map<SpaceTimeKey, AgentId>,
    pos: GridPos,
    id: AgentId,
    now: u64,
    count: int,
) -> Map<SpaceTimeKey, AgentId> {
    Map::new(
        |k: SpaceTimeKey| m.contains_key(k) || (k.pos == pos && now <= k.tick < now + count),
        |k: SpaceTimeKey|
            if m.contains_key(k) {
                m[k]
            } else {
                id
            },
    )
}

/// Nothing in `after` was taken from another agent: every reservation of
/// `before` that is not `id`'s own is still there, and whatever is new
/// belongs to `id` and lies at tick `now` or later.
pub open spec fn only_touched(
    before: Map<SpaceTimeKey, AgentId>,
    after: Map<SpaceTimeKey, AgentId>,
    id: AgentId,
    now: u64,
) -> bool {
    &&& forall|k: SpaceTimeKey| #[trigger]
        before.contains_key(k) && before[k] != id ==> after.contains_key(k) && after[k] == before[k]
    &&& forall|k: SpaceTimeKey| #[trigger]
        after.contains_key(k) ==> (before.contains_key(k) && before[k] == after[k]) || (after[k] == id
            && k.tick >= now)
}

/// What a planning cycle at tick `now` leaves of the agent `before`: the
/// same agent with a fresh path. An agent that is not moving has no path.
/// A moving agent has no path, or one that is sound and begins where the
/// agent stands.
pub open spec fn replanned(
    grid: &WarehouseGrid,
    highways: &HighwayGraph,
    obstacles: Map<GridPos, AgentId>,
    before: Robot,
    after: Robot,
    now: u64,
) -> bool {
    &&& same_but_path(before, after)
    &&& after.path.current_index == 0
    &&& before.state != RobotState::Moving ==> after.path.waypoints@.len() == 0
    &&& after.path.waypoints@.len() > 0 ==> path_sound(
        grid,
        highways,
        obstacles,
        before.id,
        before.position,
        now,
        after.path.waypoints@,
    )
}

/// Holds the cell `pos` for `id` during `count` ticks from `now` on,
/// wherever nobody holds it already.
fn anchor(space_time: &mut SpaceTimeTable, pos: GridPos, id: AgentId, now: u64, count: u64)
    ensures
        final(space_time)@ == anchored(old(space_time)@, pos, id, now, count as int),
        final(space_time).clock() == old(space_time).clock(),
{
    let mut done: u64 = 0;
    proof {
        assert(space_time@ =~= anchored(old(space_time)@, pos, id, now, 0));
    }
    while done < count
        invariant
            done <= count,
            space_time@ == anchored(old(space_time)@, pos, id, now, done as int),
            space_time.clock() == old(space_time).clock(),
        decreases count - done,
    {
        match now.checked_add(done) {
            Some(tick) => {
                space_time.reserve(pos, tick, id);
            },
            None => {},
        }
        proof {
            assert(space_time@ =~= anchored(old(space_time)@, pos, id, now, done + 1));
        }
        done += 1;
    }
}

/// Records every standing agent of the fleet as an obstacle.
fn collect_obstacles(fleet: &Vec<Robot>) -> (obstacles: StaticObstacles)
    ensures
        obstacles@ == standing(fleet@, fleet@.len() as int),
{
    let mut obstacles = StaticObstacles::new();
    let mut i: usize = 0;
    while i < fleet.len()
        invariant
            i <= fleet@.len(),
            obstacles@ == standing(fleet@, i as int),
        decreases fleet@.len() - i,
    {
        if fleet[i].state.is_stationary() {
            obstacles.insert(fleet[i].position, fleet[i].id);
        }
        i += 1;
    }
    obstacles
}

/// What a cycle at tick `now` plans for the agent `r` around the
/// reservations `m`, and the reservations afterwards.
///
/// An agent that is not moving gets no path, and the reservations stay as
/// they are. For a moving agent its own reservations are dropped, but for
/// those on its own cell in the three ticks from `now` on; then a path is
/// planned around what is left. The path is stored, and reserved, when all
/// of its slots are open to the agent.
pub open spec fn plan_outcome(
    grid: &WarehouseGrid,
    highways: &HighwayGraph,
    obstacles: Map<GridPos, AgentId>,
    config: &PbsConfig,
    r: Robot,
    m: Map<SpaceTimeKey, AgentId>,
    now: u64,
) -> (Option<Seq<(GridPos, u64)>>, Map<SpaceTimeKey, AgentId>) {
    if r.state != RobotState::Moving {
        (None, m)
    } else {
        let cleared = swept(m, Sweep::AgentExceptAnchor { agent: r.id, pos: r.position, now });
        let env = Env {
            grid: *grid,
            highways: *highways,
            obstacles,
            table: cleared,
            horizon: config.horizon,
            weight: config.heuristic_weight_tenths,
        };
        match planned(env, r.position, r.destination, now, r.id) {
            Some(path) => if path_free_in(cleared, path, r.id) {
                (Some(path), with_path(cleared, path, r.id))
            } else {
                (None, cleared)
            },
            None => (None, cleared),
        }
    }
}

/// The reservations after the cycle has planned for the first `n` agents
/// in `order`, beginning with the reservations `m`.
pub open spec fn planned_in_order(
    grid: &WarehouseGrid,
    highways: &HighwayGraph,
    obstacles: Map<GridPos, AgentId>,
    config: &PbsConfig,
    fleet: Seq<Robot>,
    order: Seq<usize>,
    m: Map<SpaceTimeKey, AgentId>,
    now: u64,
    n: int,
) -> Map<SpaceTimeKey, AgentId>
    decreases n,
{
    if n <= 0 {
        m
    } else {
        plan_outcome(
            grid,
            highways,
            obstacles,
            config,
            fleet[order[n - 1] as int],
            planned_in_order(grid, highways, obstacles, config, fleet, order, m, now, n - 1),
            now,
        ).1
    }
}

/// The agent `after` is the agent `before` with the path `plan` from its
/// beginning, or without path where there is no plan.
pub open spec fn carries_plan(before: Robot, after: Robot, plan: Option<Seq<(GridPos, u64)>>) -> bool {
    &&& same_but_path(before, after)
    &&& after.path.current_index == 0
    &&& after.path.waypoints@ == match plan {
        Some(path) => path,
        None => Seq::empty(),
    }
}

/// Two agents that differ in their paths only are planned for alike.
pub proof fn lemma_plan_outcome_ignores_path(
    grid: &WarehouseGrid,
    highways: &HighwayGraph,
    obstacles: Map<GridPos, AgentId>,
    config: &PbsConfig,
    a: Robot,
    b: Robot,
    m: Map<SpaceTimeKey, AgentId>,
    now: u64,
)
    requires
        same_but_path(a, b),
    ensures
        plan_outcome(grid, highways, obstacles, config, a, m, now) == plan_outcome(
            grid,
            highways,
            obstacles,
            config,
            b,
            m,
            now,
        ),
{
}

/// Plans afresh for the agent at place `idx` of the fleet and commits the
/// path to the table, or leaves the agent without path.
fn plan_for(
    fleet: &mut Vec<Robot>,
    idx: usize,
    grid: &WarehouseGrid,
    highways: &HighwayGraph,
    space_time: &mut SpaceTimeTable,
    obstacles: &StaticObstacles,
    config: &PbsConfig,
    now: u64,
)
    requires
        grid.wf(),
        idx < old(fleet)@.len(),
    ensures
        final(fleet)@.len() == old(fleet)@.len(),
        forall|i: int| 0 <= i < old(fleet)@.len() && i != idx ==> #[trigger] final(fleet)@[i] == old(fleet)@[i],
        replanned(grid, highways, obstacles@, old(fleet)@[idx as int], final(fleet)@[idx as int], now),
        carries_plan(
            old(fleet)@[idx as int],
            final(fleet)@[idx as int],
            plan_outcome(grid, highways, obstacles@, config, old(fleet)@[idx as int], old(space_time)@, now).0,
        ),
        final(space_time)@ == plan_outcome(
            grid,
            highways,
            obstacles@,
            config,
            old(fleet)@[idx as int],
            old(space_time)@,
            now,
        ).1,
        path_held(final(space_time)@, old(fleet)@[idx as int].id, final(fleet)@[idx as int].path.waypoints@),
        only_touched(old(space_time)@, final(space_time)@, old(fleet)@[idx as int].id, now),
        final(space_time).clock() == old(space_time).clock(),
        forall|b: AgentId, pb: Seq<(GridPos, u64)>|
            b != old(fleet)@[idx as int].id && #[trigger] path_held(old(space_time)@, b, pb) ==> swap_free(
                final(fleet)@[idx as int].path.waypoints@,
                pb,
            ) && swap_free(pb, final(fleet)@[idx as int].path.waypoints@),
{
    let id: AgentId = fleet[idx].id;
    let position: GridPos = fleet[idx].position;
    let destination: GridPos = fleet[idx].destination;
    if fleet[idx].state != RobotState::Moving {
        fleet[idx].path.clear();
        fleet[idx].path.current_index = 0;
        return ;
    }
    space_time.clear_entity_except_pos(id, position, now);
    let ghost cleared = space_time@;
    let planner = PbsPlanner::new(grid, highways, space_time, obstacles, config);
    let plan = planner.plan_path(position, destination, now, id);
    match plan {
        Some(new_path) => {
            if space_time.reserve_path(new_path.as_slice(), id) {
                proof {
                    let path = new_path@;
                    assert forall|j: int| 0 <= j < path.len() implies space_time@.contains_key(
                        slot(#[trigger] path[j]),
                    ) && space_time@[slot(path[j])] == id by {
                        assert(path[j] == (slot(path[j]).pos, slot(path[j]).tick));
                    }
                    assert forall|k: SpaceTimeKey| #[trigger]
                        space_time@.contains_key(k) implies (old(space_time)@.contains_key(k) && old(
                        space_time,
                    )@[k] == space_time@[k]) || (space_time@[k] == id && k.tick >= now) by {
                        if path_covers(path, k) {
                            let j = choose|j: int| 0 <= j < path.len() && #[trigger] path[j] == (k.pos, k.tick);
                            assert(now <= path[j].1);
                        }
                    }
                    assert forall|k: SpaceTimeKey| #[trigger]
                        old(space_time)@.contains_key(k) && old(space_time)@[k] != id implies space_time@.contains_key(
                        k,
                    ) && space_time@[k] == old(space_time)@[k] by {
                        assert(cleared.contains_key(k) && cleared[k] == old(space_time)@[k]);
                        if path_covers(path, k) {
                            let j = choose|j: int| 0 <= j < path.len() && #[trigger] path[j] == (k.pos, k.tick);
                            assert(free_in(cleared, path[j].0, path[j].1, Some(id)));
                        }
                    }
                }
                proof {
                    assert forall|b: AgentId, pb: Seq<(GridPos, u64)>|
                        b != id && #[trigger] path_held(old(space_time)@, b, pb) implies swap_free(new_path@, pb)
                        && swap_free(pb, new_path@) by {
                        assert forall|j: int| 0 <= j < pb.len() implies cleared.contains_key(
                            slot(#[trigger] pb[j]),
                        ) && cleared[slot(pb[j])] == b by {
                            assert(old(space_time)@.contains_key(slot(pb[j])));
                        }
                        lemma_allowed_plan_swap_free(
                            grid,
                            highways,
                            obstacles@,
                            cleared,
                            id,
                            position,
                            now,
                            end_tick(now, config.horizon),
                            new_path@,
                            b,
                            pb,
                        );
                    }
                }
                fleet[idx].path = PlannedPath::new(new_path);
            } else {
                fleet[idx].path.clear();
                fleet[idx].path.current_index = 0;
            }
        },
        None => {
            fleet[idx].path.clear();
            fleet[idx].path.current_index = 0;
        },
    }
}

/// The reservations `m` after the first `n` agents in `order` had their
/// cells held for them from `now` on: every agent for `count` ticks where
/// `all` is set, and otherwise only the standing agents.
pub open spec fn anchored_in_order(
    m: Map<SpaceTimeKey, AgentId>,
    fleet: Seq<Robot>,
    order: Seq<usize>,
    now: u64,
    count: int,
    all: bool,
    n: int,
) -> Map<SpaceTimeKey, AgentId>
    decreases n,
{
    if n <= 0 {
        m
    } else {
        let before = anchored_in_order(m, fleet, order, now, count, all, n - 1);
        let r = fleet[order[n - 1] as int];
        if all || r.state.stationary() {
            anchored(before, r.position, r.id, now, count)
        } else {
            before
        }
    }
}

/// Holds the cells of the agents for them from `now` on, in planning
/// order.
fn anchor_in_order(
    fleet: &Vec<Robot>,
    order: &Vec<usize>,
    space_time: &mut SpaceTimeTable,
    now: u64,
    count: u64,
    all: bool,
)
    requires
        is_planning_order(fleet@, order@),
    ensures
        final(space_time)@ == anchored_in_order(
            old(space_time)@,
            fleet@,
            order@,
            now,
            count as int,
            all,
            order@.len() as int,
        ),
        final(space_time).clock() == old(space_time).clock(),
        forall|k: SpaceTimeKey| #[trigger]
            final(space_time)@.contains_key(k) ==> old(space_time)@.contains_key(k) || k.tick >= now,
{
    let n: usize = order.len();
    let mut m: usize = 0;
    while m < n
        invariant
            m <= n,
            n == order@.len(),
            is_planning_order(fleet@, order@),
            space_time@ == anchored_in_order(old(space_time)@, fleet@, order@, now, count as int, all, m as int),
            space_time.clock() == old(space_time).clock(),
            forall|k: SpaceTimeKey| #[trigger]
                space_time@.contains_key(k) ==> old(space_time)@.contains_key(k) || k.tick >= now,
        decreases n - m,
    {
        let robot = &fleet[order[m]];
        if all || robot.state.is_stationary() {
            anchor(space_time, robot.position, robot.id, now, count);
        }
        m += 1;
    }
}

/// The reservations with which the planning of a cycle at tick `now`
/// begins: stale reservations are dropped, the cell of every agent is held
/// for it during the next ticks, and the cells of the standing agents are
/// held up to the horizon; both in planning order.
pub open spec fn cycle_start(
    m: Map<SpaceTimeKey, AgentId>,
    fleet: Seq<Robot>,
    order: Seq<usize>,
    now: u64,
    horizon: u64,
) -> Map<SpaceTimeKey, AgentId> {
    anchored_in_order(
        anchored_in_order(
            swept(m, Sweep::Stale { now }),
            fleet,
            order,
            now,
            ANCHOR_TICKS as int,
            true,
            order.len() as int,
        ),
        fleet,
        order,
        now,
        horizon as int,
        false,
        order.len() as int,
    )
}

/// What a planning cycle at tick `now` makes of the fleet `before` and the
/// reservations `m` when the agents plan in `order`: each agent carries
/// what was planned for it around the reservations that the agents before
/// it left, and the reservations are those that the last agent left.
pub open spec fn cycle_outcome(
    grid: &WarehouseGrid,
    highways: &HighwayGraph,
    config: &PbsConfig,
    before: Seq<Robot>,
    after: Seq<Robot>,
    m: Map<SpaceTimeKey, AgentId>,
    m_after: Map<SpaceTimeKey, AgentId>,
    order: Seq<usize>,
    now: u64,
) -> bool {
    let obstacles = standing(before, before.len() as int);
    let m0 = cycle_start(m, before, order, now, config.horizon);
    &&& after.len() == before.len()
    &&& m_after == planned_in_order(grid, highways, obstacles, config, before, order, m0, now, order.len() as int)
    &&& forall|j: int|
        0 <= j < order.len() ==> carries_plan(
            before[order[j] as int],
            #[trigger] after[order[j] as int],
            plan_outcome(
                grid,
                highways,
                obstacles,
                config,
                before[order[j] as int],
                planned_in_order(grid, highways, obstacles, config, before, order, m0, now, j),
                now,
            ).0,
        )
}

/// One of the first `m` places of `order` is `i`.
pub open spec fn planned_already(order: Seq<usize>, m: int, i: int) -> bool {
    exists|j: int| 0 <= j < m && j < order.len() && #[trigger] order[j] == i
}

/// Runs one planning cycle when the table's clock stands on a multiple of
/// the replanning interval, and does nothing otherwise.
///
/// The cycle drops stale reservations, holds every agent's cell for the
/// next ticks and the cells of standing agents up to the horizon, and then
/// plans for the moving agents in planning order. A path is stored only
/// when all of it could be reserved, so that the paths of two agents never
/// claim one cell at one tick.
pub fn pbs_planning_system(
    fleet: &mut Vec<Robot>,
    grid: &WarehouseGrid,
    highways: &HighwayGraph,
    space_time: &mut SpaceTimeTable,
    config: &PbsConfig,
)
    requires
        grid.wf(),
        config.replan_interval > 0,
    ensures
        final(fleet)@.len() == old(fleet)@.len(),
        final(space_time).clock() == old(space_time).clock(),
        old(space_time).clock() % config.replan_interval != 0 ==> final(fleet)@ == old(fleet)@
            && final(space_time)@ == old(space_time)@,
        old(space_time).clock() % config.replan_interval == 0 ==> {
            let now = old(space_time).clock();
            let obstacles = standing(old(fleet)@, old(fleet)@.len() as int);
            &&& forall|i: int|
                0 <= i < old(fleet)@.len() ==> replanned(
                    grid,
                    highways,
                    obstacles,
                    old(fleet)@[i],
                    #[trigger] final(fleet)@[i],
                    now,
                )
            &&& distinct_ids(old(fleet)@) ==> forall|i: int|
                0 <= i < old(fleet)@.len() ==> path_held(
                    final(space_time)@,
                    old(fleet)@[i].id,
                    (#[trigger] final(fleet)@[i]).path.waypoints@,
                )
            &&& distinct_ids(old(fleet)@) ==> forall|i: int, j: int|
                0 <= i < old(fleet)@.len() && 0 <= j < old(fleet)@.len() && i != j ==> swap_free(
                    (#[trigger] final(fleet)@[i]).path.waypoints@,
                    (#[trigger] final(fleet)@[j]).path.waypoints@,
                )
            &&& distinct_ids(old(fleet)@) ==> forall|i: int, j: int|
                0 <= i < old(fleet)@.len() && 0 <= j < old(fleet)@.len() && i != j ==> meet_free(
                    (#[trigger] final(fleet)@[i]).path.waypoints@,
                    (#[trigger] final(fleet)@[j]).path.waypoints@,
                )
            &&& forall|k: SpaceTimeKey| #[trigger] final(space_time)@.contains_key(k) ==> k.tick >= now - 1
            &&& exists|order: Seq<usize>|
                is_planning_order(old(fleet)@, order) && #[trigger] cycle_outcome(
                    grid,
                    highways,
                    config,
                    old(fleet)@,
                    final(fleet)@,
                    old(space_time)@,
                    final(space_time)@,
                    order,
                    now,
                )
        },
{
    let current_tick: u64 = space_time.current_tick();
    if current_tick % config.replan_interval != 0 {
        return ;
    }
    let static_obstacles = collect_obstacles(fleet);
    let order = planning_order(fleet);
    space_time.cleanup(current_tick);
    anchor_in_order(fleet, &order, space_time, current_tick, ANCHOR_TICKS, true);
    anchor_in_order(fleet, &order, space_time, current_tick, config.horizon, false);
    let ghost m0 = space_time@;
    let ghost standing_all = static_obstacles@;
    proof {
        assert(m0 == cycle_start(old(space_time)@, old(fleet)@, order@, current_tick, config.horizon));
    }
    let n: usize = order.len();
    let mut m: usize = 0;
    while m < n
        invariant
            grid.wf(),
            m <= n,
            n == order@.len(),
            n == fleet@.len(),
            n == old(fleet)@.len(),
            is_planning_order(old(fleet)@, order@),
            standing_all == static_obstacles@,
            space_time@ == planned_in_order(
                grid,
                highways,
                standing_all,
                config,
                old(fleet)@,
                order@,
                m0,
                current_tick,
                m as int,
            ),
            forall|j: int|
                0 <= j < m ==> carries_plan(
                    old(fleet)@[order@[j] as int],
                    #[trigger] fleet@[order@[j] as int],
                    plan_outcome(
                        grid,
                        highways,
                        standing_all,
                        config,
                        old(fleet)@[order@[j] as int],
                        planned_in_order(
                            grid,
                            highways,
                            standing_all,
                            config,
                            old(fleet)@,
                            order@,
                            m0,
                            current_tick,
                            j,
                        ),
                        current_tick,
                    ).0,
                ),
            static_obstacles@ == standing(old(fleet)@, old(fleet)@.len() as int),
            space_time.clock() == old(space_time).clock(),
            current_tick == old(space_time).clock(),
            forall|k: SpaceTimeKey| #[trigger] space_time@.contains_key(k) ==> k.tick >= current_tick - 1,
            forall|i: int| 0 <= i < n ==> same_but_path(old(fleet)@[i], #[trigger] fleet@[i]),
            forall|i: int| 0 <= i < n && !planned_already(order@, m as int, i) ==> #[trigger] fleet@[i] == old(fleet)@[i],
            forall|i: int|
                0 <= i < n && planned_already(order@, m as int, i) ==> replanned(
                    grid,
                    highways,
                    static_obstacles@,
                    old(fleet)@[i],
                    #[trigger] fleet@[i],
                    current_tick,
                ),
            distinct_ids(old(fleet)@) ==> forall|i: int|
                0 <= i < n && planned_already(order@, m as int, i) ==> path_held(
                    space_time@,
                    old(fleet)@[i].id,
                    (#[trigger] fleet@[i]).path.waypoints@,
                ),
            distinct_ids(old(fleet)@) ==> forall|i: int, j: int|
                0 <= i < n && 0 <= j < n && i != j ==> swap_free(
                    (#[trigger] fleet@[i]).path.waypoints@,
                    (#[trigger] fleet@[j]).path.waypoints@,
                ) || !planned_already(order@, m as int, i) || !planned_already(order@, m as int, j),
        decreases n - m,
    {
        let idx: usize = order[m];
        let ghost fleet_before = fleet@;
        let ghost table_before = space_time@;
        plan_for(fleet, idx, grid, highways, space_time, &static_obstacles, config, current_tick);
        proof {
            lemma_plan_outcome_ignores_path(
                grid,
                highways,
                standing_all,
                config,
                old(fleet)@[idx as int],
                fleet_before[idx as int],
                table_before,
                current_tick,
            );
            assert forall|j: int| 0 <= j < m + 1 implies carries_plan(
                old(fleet)@[order@[j] as int],
                #[trigger] fleet@[order@[j] as int],
                plan_outcome(
                    grid,
                    highways,
                    standing_all,
                    config,
                    old(fleet)@[order@[j] as int],
                    planned_in_order(grid, highways, standing_all, config, old(fleet)@, order@, m0, current_tick, j),
                    current_tick,
                ).0,
            ) by {
                if j < m {
                    assert(plans_before(old(fleet)@, order@[j] as int, order@[m as int] as int));
                    assert(order@[j] != idx);
                    assert(fleet@[order@[j] as int] == fleet_before[order@[j] as int]);
                }
            }
            assert forall|i: int| planned_already(order@, m + 1, i) <==> (planned_already(order@, m as int, i)
                || i == idx) by {
                if planned_already(order@, m + 1, i) {
                    let j = choose|j: int| 0 <= j < m + 1 && j < order@.len() && #[trigger] order@[j] == i;
                    if j < m {
                        assert(planned_already(order@, m as int, i));
                    }
                }
                if planned_already(order@, m as int, i) {
                    let j = choose|j: int| 0 <= j < m && j < order@.len() && #[trigger] order@[j] == i;
                    assert(order@[j] == i);
                }
                if i == idx {
                    assert(order@[m as int] == i);
                }
            }
            assert forall|i: int| 0 <= i < n implies same_but_path(old(fleet)@[i], #[trigger] fleet@[i]) by {
                if i != idx {
                    assert(fleet@[i] == fleet_before[i]);
                }
            }
            if distinct_ids(old(fleet)@) {
                assert forall|i: int| 0 <= i < n && planned_already(order@, m + 1, i) implies path_held(
                    space_time@,
                    old(fleet)@[i].id,
                    (#[trigger] fleet@[i]).path.waypoints@,
                ) by {
                    if i != idx {
                        assert(fleet@[i] == fleet_before[i]);
                        assert(old(fleet)@[i].id != old(fleet)@[idx as int].id);
                        let path = fleet@[i].path.waypoints@;
                        assert forall|j: int| 0 <= j < path.len() implies space_time@.contains_key(
                            slot(#[trigger] path[j]),
                        ) && space_time@[slot(path[j])] == old(fleet)@[i].id by {
                            assert(table_before.contains_key(slot(path[j])));
                        }
                    }
                }
                assert forall|i: int, j: int| 0 <= i < n && 0 <= j < n && i != j implies swap_free(
                    (#[trigger] fleet@[i]).path.waypoints@,
                    (#[trigger] fleet@[j]).path.waypoints@,
                ) || !planned_already(order@, m + 1, i) || !planned_already(order@, m + 1, j) by {
                    if planned_already(order@, m + 1, i) && planned_already(order@, m + 1, j) {
                        if i != idx && j != idx {
                            assert(fleet@[i] == fleet_before[i]);
                            assert(fleet@[j] == fleet_before[j]);
                        } else if i == idx {
                            assert(fleet@[j] == fleet_before[j]);
                            assert(old(fleet)@[j].id != old(fleet)@[idx as int].id);
                            assert(same_but_path(old(fleet)@[idx as int], fleet_before[idx as int]));
                            assert(path_held(table_before, old(fleet)@[j].id, fleet_before[j].path.waypoints@));
                        } else {
                            assert(fleet@[i] == fleet_before[i]);
                            assert(old(fleet)@[i].id != old(fleet)@[idx as int].id);
                            assert(same_but_path(old(fleet)@[idx as int], fleet_before[idx as int]));
                            assert(path_held(table_before, old(fleet)@[i].id, fleet_before[i].path.waypoints@));
                        }
                    }
                }
            }
        }
        m += 1;
    }
    proof {
        assert(cycle_outcome(
            grid,
            highways,
            config,
            old(fleet)@,
            fleet@,
            old(space_time)@,
            space_time@,
            order@,
            current_tick,
        ));
        assert forall|i: int| 0 <= i < n implies planned_already(order@, n as int, i) by {
            assert(listed(order@, i));
            let j = choose|j: int| 0 <= j < order@.len() && #[trigger] order@[j] == i;
            assert(order@[j] == i);
        }
        if distinct_ids(old(fleet)@) {
            assert forall|i: int, j: int| 0 <= i < n && 0 <= j < n && i != j implies meet_free(
                (#[trigger] fleet@[i]).path.waypoints@,
                (#[trigger] fleet@[j]).path.waypoints@,
            ) by {
                assert(old(fleet)@[i].id != old(fleet)@[j].id);
                law_held_paths_never_meet(
                    space_time@,
                    old(fleet)@[i].id,
                    fleet@[i].path.waypoints@,
                    old(fleet)@[j].id,
                    fleet@[j].path.waypoints@,
                );
            }
        }
    }
}

} // verus!
