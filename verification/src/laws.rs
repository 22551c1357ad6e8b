//! What holds of the parts together: reservations keep agents apart, the
//! mission state machine keeps load and phase in step, and every reserved
//! storage cell has one agent that is on its way to it.

use crate::mission::MissionPhase;
use crate::navigation::executed;
use crate::pbs::meet_free;
use crate::pbs::path_held;
use crate::pbs::slot;
use crate::pbs::swap_free;
use crate::robot::Robot;
use crate::robot::RobotState;
use crate::spacetime::edge_free_in;
use crate::spacetime::free_in;
use crate::spacetime::swept;
use crate::spacetime::SpaceTimeKey;
use crate::spacetime::Sweep;
use crate::spawner::acquire_for_spawn;
use crate::spawner::acquire_pair;
use crate::spawner::awaits_mission;
use crate::spawner::mission_step;
use crate::spawner::missions_progressed;
use crate::spawner::new_robot;
use crate::spawner::reassign;
use crate::spawner::Pools;
use crate::types::AgentId;
use crate::types::GridPos;
use vstd::prelude::*;

verus! {

/// Two agents whose paths never claim one cell at one tick, and whose next
/// waypoints are both due at tick `now`, stand on different cells after
/// the path executor has run at that tick.
pub proof fn law_executor_keeps_apart(r1: Robot, r2: Robot, now: u64)
    requires
        meet_free(r1.path.waypoints@, r2.path.waypoints@),
        r1.path.head().is_some() && r1.path.head().unwrap().1 == now,
        r2.path.head().is_some() && r2.path.head().unwrap().1 == now,
    ensures
        executed(r1, now).position != executed(r2, now).position,
{
    let w1 = r1.path.waypoints@[r1.path.current_index as int];
    let w2 = r2.path.waypoints@[r2.path.current_index as int];
    assert(w1 != w2);
}

/// An agent whose next waypoint is due at tick `now` stands on that
/// waypoint's cell after the path executor has run, and heads for the
/// waypoint after it.
pub proof fn law_executor_follows_path(r: Robot, now: u64)
    requires
        r.path.head().is_some(),
        r.path.head().unwrap().1 <= now,
    ensures
        executed(r, now).position == r.path.head().unwrap().0,
        executed(r, now).path.waypoints == r.path.waypoints,
        executed(r, now).path.current_index == r.path.current_index + 1,
        executed(r, now).path.rest() == r.path.rest().subrange(1, r.path.rest().len() as int),
{
    assert(r.path.waypoints.len() == r.path.waypoints@.len());
    assert(executed(r, now).path.rest() =~= r.path.rest().subrange(1, r.path.rest().len() as int));
}

/// Two agents whose paths never exchange cells, and who both follow their
/// paths through the ticks `now` and `now + 1`, do not stand on each
/// other's former cell after the second of the two ticks.
pub proof fn law_executor_never_swaps(r1: Robot, r2: Robot, now: u64)
    requires
        now < u64::MAX,
        swap_free(r1.path.waypoints@, r2.path.waypoints@),
        r1.path.head().is_some() && r1.path.head().unwrap().1 == now,
        r2.path.head().is_some() && r2.path.head().unwrap().1 == now,
        executed(r1, now).path.head().is_some() && executed(r1, now).path.head().unwrap().1 == now + 1,
        executed(r2, now).path.head().is_some() && executed(r2, now).path.head().unwrap().1 == now + 1,
    ensures
        !(executed(r1, now).position == executed(executed(r2, now), (now + 1) as u64).position && executed(
            r2,
            now,
        ).position == executed(executed(r1, now), (now + 1) as u64).position),
{
    let i = r1.path.current_index as int;
    let j = r2.path.current_index as int;
    let pa = r1.path.waypoints@;
    let pb = r2.path.waypoints@;
    assert(r1.path.waypoints.len() == pa.len());
    assert(r2.path.waypoints.len() == pb.len());
    assert(executed(r1, now).path.current_index == i + 1);
    assert(executed(r2, now).path.current_index == j + 1);
    assert(pa[i].1 == pb[j].1);
    assert(pa[i + 1].1 == pb[j + 1].1);
}

/// Every move of `path`, from one cell to another between two ticks,
/// crosses nobody in the reservations `m` but `id` itself.
pub open spec fn moves_edge_free(m: Map<SpaceTimeKey, AgentId>, id: AgentId, path: Seq<(GridPos, u64)>) -> bool {
    forall|i: int|
        0 <= i < path.len() - 1 && (#[trigger] path[i]).0 != path[i + 1].0 ==> edge_free_in(
            m,
            path[i].0,
            path[i + 1].0,
            path[i].1,
            Some(id),
        )
}

/// Two agents that both hold their remaining waypoints in one table, of
/// whom one makes only moves that cross nobody in that table, and who both
/// follow their paths through the ticks `now` and `now + 1`, do not stand
/// on each other's former cell after the second of the two ticks.
pub proof fn law_owned_moves_never_swap(m: Map<SpaceTimeKey, AgentId>, r1: Robot, r2: Robot, now: u64)
    requires
        now < u64::MAX,
        r1.id != r2.id,
        path_held(m, r1.id, r1.path.rest()),
        path_held(m, r2.id, r2.path.rest()),
        moves_edge_free(m, r1.id, r1.path.rest()),
        r1.path.head().is_some() && r1.path.head().unwrap().1 == now,
        r2.path.head().is_some() && r2.path.head().unwrap().1 == now,
        executed(r1, now).path.head().is_some() && executed(r1, now).path.head().unwrap().1 == now + 1,
        executed(r2, now).path.head().is_some() && executed(r2, now).path.head().unwrap().1 == now + 1,
    ensures
        !(executed(r1, now).position == executed(executed(r2, now), (now + 1) as u64).position && executed(
            r2,
            now,
        ).position == executed(executed(r1, now), (now + 1) as u64).position),
{
    let pa = r1.path.rest();
    let pb = r2.path.rest();
    assert(r1.path.waypoints.len() == r1.path.waypoints@.len());
    assert(r2.path.waypoints.len() == r2.path.waypoints@.len());
    assert(pa[0] == r1.path.head().unwrap());
    assert(pb[0] == r2.path.head().unwrap());
    assert(pa[1] == executed(r1, now).path.head().unwrap());
    assert(pb[1] == executed(r2, now).path.head().unwrap());
    assert(m[slot(pa[0])] == r1.id && m[slot(pa[1])] == r1.id);
    assert(m[slot(pb[0])] == r2.id && m[slot(pb[1])] == r2.id);
    if pa[0].0 == pb[1].0 && pb[0].0 == pa[1].0 {
        if pa[0].0 != pa[1].0 {
            assert(edge_free_in(m, pa[0].0, pa[1].0, pa[0].1, Some(r1.id)));
            assert(slot(pb[0]) == (SpaceTimeKey { pos: pa[1].0, tick: pa[0].1 }));
        } else {
            assert(slot(pa[0]) == slot(pb[0]));
        }
    }
}

/// Reserving a slot for an agent and then clearing the agent leaves the
/// slot free for everybody.
pub proof fn law_reserve_then_clear_frees(
    m: Map<SpaceTimeKey, AgentId>,
    pos: GridPos,
    tick: u64,
    a: AgentId,
)
    requires
        free_in(m, pos, tick, Some(a)),
    ensures
        free_in(swept(m.insert(SpaceTimeKey { pos, tick }, a), Sweep::Agent(a)), pos, tick, None),
{
}

/// Some agent other than `exclude` has reserved the move from `to` back
/// to `from` across the boundary between `tick` and the next tick.
pub open spec fn reverse_move_reserved(
    m: Map<SpaceTimeKey, AgentId>,
    from: GridPos,
    to: GridPos,
    tick: u64,
    exclude: Option<AgentId>,
) -> bool {
    exists|b: AgentId|
        {
            &&& exclude != Some(b)
            &&& m.contains_key(SpaceTimeKey { pos: to, tick })
            &&& #[trigger] m[SpaceTimeKey { pos: to, tick }] == b
            &&& m.contains_key(SpaceTimeKey { pos: from, tick: (tick + 1) as u64 })
            &&& m[SpaceTimeKey { pos: from, tick: (tick + 1) as u64 }] == b
        }
}

/// An edge is not free when the reverse move is reserved across the tick
/// boundary.
pub proof fn law_reverse_move_blocks_edge(
    m: Map<SpaceTimeKey, AgentId>,
    from: GridPos,
    to: GridPos,
    tick: u64,
    exclude: Option<AgentId>,
)
    requires
        tick < u64::MAX,
        reverse_move_reserved(m, from, to, tick, exclude),
    ensures
        !edge_free_in(m, from, to, tick, exclude),
{
}

/// Where the two slots of an edge are held by one agent or by none, the
/// edge is not free exactly when the reverse move is reserved across the
/// tick boundary.
pub proof fn law_edge_blocked_iff_reverse_move(
    m: Map<SpaceTimeKey, AgentId>,
    from: GridPos,
    to: GridPos,
    tick: u64,
    exclude: Option<AgentId>,
)
    requires
        tick < u64::MAX,
        m.contains_key(SpaceTimeKey { pos: to, tick }) == m.contains_key(
            SpaceTimeKey { pos: from, tick: (tick + 1) as u64 },
        ),
        m.contains_key(SpaceTimeKey { pos: to, tick }) ==> m[SpaceTimeKey { pos: to, tick }] == m[SpaceTimeKey {
            pos: from,
            tick: (tick + 1) as u64,
        }],
    ensures
        !edge_free_in(m, from, to, tick, exclude) <==> reverse_move_reserved(m, from, to, tick, exclude),
{
    if !edge_free_in(m, from, to, tick, exclude) {
        let b = m[SpaceTimeKey { pos: to, tick }];
        assert(exclude != Some(b));
    }
}

/// The agent carries a load exactly while it brings one to the cargo cell
/// or drops it there; it has a timer only while it picks up or drops off;
/// and it idles after a drop-off only when no new mission could be had.
pub open spec fn mission_consistent(r: Robot) -> bool {
    match r.mission.phase {
        MissionPhase::GoingToStorage => !r.loaded && r.timer.is_none(),
        MissionPhase::PickingUp => !r.loaded,
        MissionPhase::GoingToCargo => r.loaded && r.timer.is_none(),
        MissionPhase::DroppingOff => (r.timer.is_some() && r.loaded) || (r.timer.is_none() && !r.loaded
            && r.state == RobotState::Idle),
    }
}

/// The agent waits, after a drop-off, for a new mission.
pub open spec fn parked(r: Robot) -> bool {
    r.mission.phase == MissionPhase::DroppingOff && r.timer.is_none()
}

/// An agent that the spawner admits is consistent.
pub proof fn law_new_robot_consistent(id: AgentId, pos: GridPos, storage: GridPos, cargo: GridPos, r: Robot)
    requires
        new_robot(id, pos, storage, cargo, r),
    ensures
        mission_consistent(r),
{
}

/// A step of the mission state machine keeps a consistent agent
/// consistent.
pub proof fn law_mission_step_consistent(r: Robot, p: Pools, delta_ms: u32)
    requires
        mission_consistent(r),
    ensures
        mission_consistent(mission_step(r, p, delta_ms).0),
{
}

/// A consistent agent that does not wait for a new mission is loaded
/// exactly when it is on its way to the cargo cell or dropping off.
pub proof fn law_loaded_iff_carrying(r: Robot)
    requires
        mission_consistent(r),
        !parked(r),
    ensures
        r.loaded <==> (r.mission.phase == MissionPhase::GoingToCargo || r.mission.phase
            == MissionPhase::DroppingOff),
{
}

/// The agent is loaded exactly when it is on its way to the cargo cell or
/// dropping off there.
pub open spec fn load_in_step(r: Robot) -> bool {
    r.loaded <==> (r.mission.phase == MissionPhase::GoingToCargo || r.mission.phase
        == MissionPhase::DroppingOff)
}

/// A step of the mission state machine leaves load and phase of an agent
/// in step, unless the agent idles afterwards.
pub proof fn law_mission_step_keeps_load_in_step(r: Robot, p: Pools, delta_ms: u32)
    requires
        load_in_step(r),
    ensures
        mission_step(r, p, delta_ms).0.state != RobotState::Idle ==> load_in_step(
            mission_step(r, p, delta_ms).0,
        ),
{
}

/// A pass of the mission state machine over the first `n` agents changes
/// no other agent, and leaves load and phase of each of the `n` in step,
/// unless the agent idles afterwards.
pub proof fn law_missions_keep_load_in_step(fleet: Seq<Robot>, p: Pools, delta_ms: u32, n: int)
    requires
        0 <= n <= fleet.len(),
        forall|i: int| 0 <= i < fleet.len() ==> load_in_step(#[trigger] fleet[i]),
    ensures
        missions_progressed(fleet, p, delta_ms, n).0.len() == fleet.len(),
        forall|i: int|
            n <= i < fleet.len() ==> (#[trigger] missions_progressed(fleet, p, delta_ms, n).0[i]) == fleet[i],
        forall|i: int|
            0 <= i < n && (#[trigger] missions_progressed(fleet, p, delta_ms, n).0[i]).state
                != RobotState::Idle ==> load_in_step(missions_progressed(fleet, p, delta_ms, n).0[i]),
    decreases n,
{
    if n > 0 {
        law_missions_keep_load_in_step(fleet, p, delta_ms, n - 1);
        let (before, pools) = missions_progressed(fleet, p, delta_ms, n - 1);
        assert(before[n - 1] == fleet[n - 1]);
        law_mission_step_keeps_load_in_step(before[n - 1], pools, delta_ms);
        let after = missions_progressed(fleet, p, delta_ms, n).0;
        assert forall|i: int| 0 <= i < n && (#[trigger] after[i]).state != RobotState::Idle implies load_in_step(
            after[i],
        ) by {
            if i < n - 1 {
                assert(after[i] == before[i]);
            }
        }
    }
}

/// The agent is on its way to its storage cell or picking up there.
pub open spec fn heads_for_storage(r: Robot) -> bool {
    r.mission.phase == MissionPhase::GoingToStorage || r.mission.phase == MissionPhase::PickingUp
}

/// The agent at place `i` of the fleet is on its way to the storage cell
/// `s` or picking up there.
pub open spec fn claims_storage(fleet: Seq<Robot>, i: int, s: GridPos) -> bool {
    0 <= i < fleet.len() && heads_for_storage(fleet[i]) && fleet[i].mission.storage_target == s
}

/// The reserved storage cells and the agents agree: every reserved cell is
/// the storage cell of an agent that is on its way to it or picking up
/// there, the storage cell of every such agent is reserved, and no two
/// such agents have one storage cell.
pub open spec fn storage_ledger(fleet: Seq<Robot>, taken: Set<GridPos>) -> bool {
    &&& forall|s: GridPos| #[trigger] taken.contains(s) ==> exists|i: int| claims_storage(fleet, i, s)
    &&& forall|i: int, s: GridPos| #[trigger] claims_storage(fleet, i, s) ==> taken.contains(s)
    &&& forall|i: int, j: int, s: GridPos|
        #[trigger] claims_storage(fleet, i, s) && #[trigger] claims_storage(fleet, j, s) ==> i == j
}

/// An attempt to reserve a pair of cells either yields a storage cell that
/// was free and reserves it, or leaves the reserved storage cells as they
/// were.
pub proof fn lemma_acquire_pair_storage(p: Pools)
    requires
        p.storage.valid(),
    ensures
        acquire_pair(p).0.storage.valid(),
        match acquire_pair(p).1 {
            Some(pair) => !p.storage.taken.contains(pair.0) && acquire_pair(p).0.storage.taken
                == p.storage.taken.insert(pair.0),
            None => acquire_pair(p).0.storage.taken == p.storage.taken,
        },
{
    p.storage.lemma_pick();
    let after = acquire_pair(p).0.storage;
    match p.storage.picked() {
        Some(s) => {
            assert(p.storage.taken.insert(s).remove(s) =~= p.storage.taken);
            if p.cargo.picked().is_none() {
                assert forall|q: GridPos| #[trigger] after.taken.contains(q) implies after.cells.contains(q) by {
                    assert(p.storage.taken.contains(q));
                }
            }
        },
        None => {},
    }
}

/// A step of the mission state machine of one agent keeps the reserved
/// storage cells and the agents in agreement.
pub proof fn law_mission_step_keeps_ledger(fleet: Seq<Robot>, i: int, p: Pools, delta_ms: u32)
    requires
        0 <= i < fleet.len(),
        p.storage.valid(),
        storage_ledger(fleet, p.storage.taken),
    ensures
        mission_step(fleet[i], p, delta_ms).1.storage.valid(),
        storage_ledger(
            fleet.update(i, mission_step(fleet[i], p, delta_ms).0),
            mission_step(fleet[i], p, delta_ms).1.storage.taken,
        ),
{
    let r = fleet[i];
    let (r2, q) = mission_step(r, p, delta_ms);
    let after = fleet.update(i, r2);
    let s0 = r.mission.storage_target;
    assert forall|j: int, s: GridPos| j != i implies claims_storage(after, j, s) == claims_storage(fleet, j, s) by {}
    let released = Pools { storage: p.storage, cargo: p.cargo.released(r.mission.cargo_target) };
    lemma_acquire_pair_storage(p);
    lemma_acquire_pair_storage(released);
    if heads_for_storage(r) {
        assert(claims_storage(fleet, i, s0));
    }
    if heads_for_storage(r) && heads_for_storage(r2) {
        // The agent keeps its claim, and nothing else changes.
        assert(r2.mission.storage_target == s0);
        assert(q.storage == p.storage);
        assert forall|j: int, s: GridPos| claims_storage(after, j, s) == claims_storage(fleet, j, s) by {}
        assert forall|s: GridPos| #[trigger] q.storage.taken.contains(s) implies exists|j: int|
            claims_storage(after, j, s) by {
            let j = choose|j: int| claims_storage(fleet, j, s);
            assert(claims_storage(after, j, s));
        }
    } else if heads_for_storage(r) {
        // The pickup is over: the agent gives its storage cell back.
        assert(q.storage == p.storage.released(s0));
        assert forall|q2: GridPos| #[trigger] q.storage.taken.contains(q2) implies q.storage.cells.contains(q2) by {
            assert(p.storage.taken.contains(q2));
        }
        assert forall|s: GridPos| #[trigger] q.storage.taken.contains(s) implies exists|j: int|
            claims_storage(after, j, s) by {
            assert(p.storage.taken.contains(s));
            let j = choose|j: int| claims_storage(fleet, j, s);
            assert(j != i);
            assert(claims_storage(after, j, s));
        }
        assert forall|j: int, s: GridPos| #[trigger] claims_storage(after, j, s) implies q.storage.taken.contains(
            s,
        ) by {
            assert(claims_storage(fleet, j, s));
            if s == s0 {
                assert(claims_storage(fleet, i, s0));
            }
        }
        assert forall|j: int, k: int, s: GridPos|
            #[trigger] claims_storage(after, j, s) && #[trigger] claims_storage(after, k, s) implies j == k by {
            assert(claims_storage(fleet, j, s) && claims_storage(fleet, k, s));
        }
    } else if heads_for_storage(r2) {
        // The agent was given a new mission with a storage cell that was
        // free.
        let s1 = r2.mission.storage_target;
        assert(!p.storage.taken.contains(s1));
        assert(q.storage.taken == p.storage.taken.insert(s1));
        assert forall|s: GridPos| #[trigger] q.storage.taken.contains(s) implies exists|j: int|
            claims_storage(after, j, s) by {
            if s == s1 {
                assert(claims_storage(after, i, s));
            } else {
                let j = choose|j: int| claims_storage(fleet, j, s);
                assert(claims_storage(after, j, s));
            }
        }
        assert forall|j: int, s: GridPos| #[trigger] claims_storage(after, j, s) implies q.storage.taken.contains(
            s,
        ) by {
            if j != i {
                assert(claims_storage(fleet, j, s));
            }
        }
        assert forall|j: int, k: int, s: GridPos|
            #[trigger] claims_storage(after, j, s) && #[trigger] claims_storage(after, k, s) implies j == k by {
            if j != i && k != i {
                assert(claims_storage(fleet, j, s) && claims_storage(fleet, k, s));
            } else if j != i {
                assert(claims_storage(fleet, j, s));
            } else if k != i {
                assert(claims_storage(fleet, k, s));
            }
        }
    } else {
        // The agent has no claim before or after, and the reserved storage
        // cells are as they were.
        assert(q.storage.taken == p.storage.taken);
        assert forall|j: int, s: GridPos| claims_storage(after, j, s) == claims_storage(fleet, j, s) by {}
        assert forall|s: GridPos| #[trigger] q.storage.taken.contains(s) implies exists|j: int|
            claims_storage(after, j, s) by {
            let j = choose|j: int| claims_storage(fleet, j, s);
            assert(claims_storage(after, j, s));
        }
    }
}

/// A pass of the mission state machine over the first `n` agents keeps
/// the reserved storage cells and the agents in agreement.
pub proof fn law_missions_keep_ledger(fleet: Seq<Robot>, p: Pools, delta_ms: u32, n: int)
    requires
        0 <= n <= fleet.len(),
        p.storage.valid(),
        storage_ledger(fleet, p.storage.taken),
    ensures
        missions_progressed(fleet, p, delta_ms, n).0.len() == fleet.len(),
        missions_progressed(fleet, p, delta_ms, n).1.storage.valid(),
        storage_ledger(
            missions_progressed(fleet, p, delta_ms, n).0,
            missions_progressed(fleet, p, delta_ms, n).1.storage.taken,
        ),
    decreases n,
{
    if n > 0 {
        law_missions_keep_ledger(fleet, p, delta_ms, n - 1);
        let (before, pools) = missions_progressed(fleet, p, delta_ms, n - 1);
        law_mission_step_keeps_ledger(before, n - 1, pools, delta_ms);
    }
}

/// The admission of an agent keeps the reserved storage cells and the
/// agents in agreement, whether the agent is admitted or not.
pub proof fn law_spawn_keeps_ledger(fleet: Seq<Robot>, p: Pools, id: AgentId, pos: GridPos, r: Robot)
    requires
        p.storage.valid(),
        storage_ledger(fleet, p.storage.taken),
        acquire_for_spawn(p).1.is_some() ==> new_robot(
            id,
            pos,
            acquire_for_spawn(p).1.unwrap().0,
            acquire_for_spawn(p).1.unwrap().1,
            r,
        ),
    ensures
        acquire_for_spawn(p).1.is_some() ==> storage_ledger(fleet.push(r), acquire_for_spawn(p).0.storage.taken),
        acquire_for_spawn(p).1.is_none() ==> storage_ledger(fleet, acquire_for_spawn(p).0.storage.taken),
{
    p.storage.lemma_pick();
    let (q, pair) = acquire_for_spawn(p);
    match p.storage.picked() {
        Some(s) => {
            assert(p.storage.taken.insert(s).remove(s) =~= p.storage.taken);
            if pair.is_some() {
                let after = fleet.push(r);
                let n = fleet.len() as int;
                assert forall|j: int, t: GridPos| j != n implies claims_storage(after, j, t) == claims_storage(
                    fleet,
                    j,
                    t,
                ) by {}
                assert forall|t: GridPos| #[trigger] q.storage.taken.contains(t) implies exists|j: int|
                    claims_storage(after, j, t) by {
                    if t == s {
                        assert(claims_storage(after, n, t));
                    } else {
                        let j = choose|j: int| claims_storage(fleet, j, t);
                        assert(claims_storage(after, j, t));
                    }
                }
                assert forall|j: int, t: GridPos| #[trigger] claims_storage(after, j, t) implies q.storage.taken.contains(
                    t,
                ) by {
                    if j != n {
                        assert(claims_storage(fleet, j, t));
                    }
                }
                assert forall|j: int, k: int, t: GridPos|
                    #[trigger] claims_storage(after, j, t) && #[trigger] claims_storage(after, k, t) implies j
                    == k by {
                    if j != n && k != n {
                        assert(claims_storage(fleet, j, t) && claims_storage(fleet, k, t));
                    } else if j != n {
                        assert(claims_storage(fleet, j, t));
                    } else if k != n {
                        assert(claims_storage(fleet, k, t));
                    }
                }
            }
        },
        None => {},
    }
}

/// The agent has a cargo cell of its own: it is on a mission and has not
/// yet finished the drop-off.
pub open spec fn heads_for_cargo(r: Robot) -> bool {
    r.mission.phase != MissionPhase::DroppingOff || r.timer.is_some()
}

/// The agent at place `i` of the fleet has the cargo cell `c` for its own.
pub open spec fn claims_cargo(fleet: Seq<Robot>, i: int, c: GridPos) -> bool {
    0 <= i < fleet.len() && heads_for_cargo(fleet[i]) && fleet[i].mission.cargo_target == c
}

/// The reserved cargo cells and the agents agree: every reserved cell is
/// the cargo cell of an agent that has not yet finished its drop-off, the
/// cargo cell of every such agent is reserved, and no two such agents have
/// one cargo cell.
pub open spec fn cargo_ledger(fleet: Seq<Robot>, taken: Set<GridPos>) -> bool {
    &&& forall|c: GridPos| #[trigger] taken.contains(c) ==> exists|i: int| claims_cargo(fleet, i, c)
    &&& forall|i: int, c: GridPos| #[trigger] claims_cargo(fleet, i, c) ==> taken.contains(c)
    &&& forall|i: int, j: int, c: GridPos|
        #[trigger] claims_cargo(fleet, i, c) && #[trigger] claims_cargo(fleet, j, c) ==> i == j
}

/// An attempt to reserve a pair of cells either yields a cargo cell that
/// was free and reserves it, or leaves the reserved cargo cells as they
/// were.
pub proof fn lemma_acquire_pair_cargo(p: Pools)
    requires
        p.cargo.valid(),
    ensures
        acquire_pair(p).0.cargo.valid(),
        match acquire_pair(p).1 {
            Some(pair) => !p.cargo.taken.contains(pair.1) && acquire_pair(p).0.cargo.taken
                == p.cargo.taken.insert(pair.1),
            None => acquire_pair(p).0.cargo.taken == p.cargo.taken,
        },
{
    p.cargo.lemma_pick();
    let after = acquire_pair(p).0.cargo;
    match p.cargo.picked() {
        Some(c) => {
            assert(p.cargo.taken.insert(c).remove(c) =~= p.cargo.taken);
            if p.storage.picked().is_none() {
                assert forall|q: GridPos| #[trigger] after.taken.contains(q) implies after.cells.contains(q) by {
                    assert(p.cargo.taken.contains(q));
                }
            }
        },
        None => {},
    }
}

/// Giving a claimed cargo cell back, and then reserving a pair of cells
/// for the same agent if one can be had, keeps the reserved cargo cells and
/// the agents in agreement.
proof fn lemma_reassign_keeps_cargo_ledger(fleet: Seq<Robot>, i: int, r: Robot, p: Pools)
    requires
        0 <= i < fleet.len(),
        p.cargo.valid(),
        !heads_for_cargo(r),
        r.mission.phase == MissionPhase::DroppingOff,
        cargo_ledger(fleet.update(i, r), p.cargo.taken),
    ensures
        reassign(r, p).1.cargo.valid(),
        cargo_ledger(fleet.update(i, reassign(r, p).0), reassign(r, p).1.cargo.taken),
{
    let before = fleet.update(i, r);
    let (r2, q) = reassign(r, p);
    let after = fleet.update(i, r2);
    lemma_acquire_pair_cargo(p);
    assert forall|j: int, c: GridPos| j != i implies claims_cargo(after, j, c) == claims_cargo(before, j, c) by {}
    assert forall|c: GridPos| !claims_cargo(before, i, c) by {}
    if acquire_pair(p).1.is_some() {
        let c1 = r2.mission.cargo_target;
        assert(claims_cargo(after, i, c1));
        assert forall|c: GridPos| #[trigger] q.cargo.taken.contains(c) implies exists|j: int|
            claims_cargo(after, j, c) by {
            if c != c1 {
                let j = choose|j: int| claims_cargo(before, j, c);
                assert(claims_cargo(after, j, c));
            }
        }
        assert forall|j: int, c: GridPos| #[trigger] claims_cargo(after, j, c) implies q.cargo.taken.contains(
            c,
        ) by {
            if j != i {
                assert(claims_cargo(before, j, c));
            }
        }
        assert forall|j: int, k: int, c: GridPos|
            #[trigger] claims_cargo(after, j, c) && #[trigger] claims_cargo(after, k, c) implies j == k by {
            if j != i {
                assert(claims_cargo(before, j, c));
            }
            if k != i {
                assert(claims_cargo(before, k, c));
            }
        }
    } else {
        assert forall|j: int, c: GridPos| claims_cargo(after, j, c) == claims_cargo(before, j, c) by {}
        assert forall|c: GridPos| #[trigger] q.cargo.taken.contains(c) implies exists|j: int|
            claims_cargo(after, j, c) by {
            let j = choose|j: int| claims_cargo(before, j, c);
            assert(claims_cargo(after, j, c));
        }
    }
}

/// A step of the mission state machine of one agent keeps the reserved
/// cargo cells and the agents in agreement.
pub proof fn law_mission_step_keeps_cargo_ledger(fleet: Seq<Robot>, i: int, p: Pools, delta_ms: u32)
    requires
        0 <= i < fleet.len(),
        p.cargo.valid(),
        cargo_ledger(fleet, p.cargo.taken),
    ensures
        mission_step(fleet[i], p, delta_ms).1.cargo.valid(),
        cargo_ledger(
            fleet.update(i, mission_step(fleet[i], p, delta_ms).0),
            mission_step(fleet[i], p, delta_ms).1.cargo.taken,
        ),
{
    let r = fleet[i];
    let (r2, q) = mission_step(r, p, delta_ms);
    let after = fleet.update(i, r2);
    let c0 = r.mission.cargo_target;
    let dropping = r.mission.phase == MissionPhase::DroppingOff;
    if dropping && r.timer.is_some() && r.timer.unwrap().expires_within(delta_ms) {
        // The drop-off is over: the agent gives its cargo cell back, and
        // is then given a new mission if one can be had.
        let unloaded = Robot { loaded: false, timer: None, ..r };
        let released = Pools { storage: p.storage, cargo: p.cargo.released(c0) };
        let between = fleet.update(i, unloaded);
        assert(claims_cargo(fleet, i, c0));
        assert forall|j: int, c: GridPos| j != i implies claims_cargo(between, j, c) == claims_cargo(fleet, j, c) by {}
        assert forall|q2: GridPos| #[trigger] released.cargo.taken.contains(q2) implies released.cargo.cells.contains(
            q2,
        ) by {
            assert(p.cargo.taken.contains(q2));
        }
        assert forall|c: GridPos| #[trigger] released.cargo.taken.contains(c) implies exists|j: int|
            claims_cargo(between, j, c) by {
            assert(p.cargo.taken.contains(c));
            let j = choose|j: int| claims_cargo(fleet, j, c);
            assert(j != i);
            assert(claims_cargo(between, j, c));
        }
        assert forall|j: int, c: GridPos| #[trigger] claims_cargo(between, j, c) implies released.cargo.taken.contains(
            c,
        ) by {
            assert(claims_cargo(fleet, j, c));
        }
        assert forall|j: int, k: int, c: GridPos|
            #[trigger] claims_cargo(between, j, c) && #[trigger] claims_cargo(between, k, c) implies j == k by {
            assert(claims_cargo(fleet, j, c) && claims_cargo(fleet, k, c));
        }
        lemma_reassign_keeps_cargo_ledger(fleet, i, unloaded, released);
        assert(fleet.update(i, reassign(unloaded, released).0) == after);
    } else if awaits_mission(r) {
        // The agent waits for a new mission and tries again.
        assert(fleet.update(i, r) =~= fleet);
        lemma_reassign_keeps_cargo_ledger(fleet, i, r, p);
    } else {
        // The agent keeps its cargo cell, or goes on without one.
        assert(q.cargo == p.cargo);
        assert forall|j: int, c: GridPos| claims_cargo(after, j, c) == claims_cargo(fleet, j, c) by {}
        assert forall|c: GridPos| #[trigger] q.cargo.taken.contains(c) implies exists|j: int|
            claims_cargo(after, j, c) by {
            let j = choose|j: int| claims_cargo(fleet, j, c);
            assert(claims_cargo(after, j, c));
        }
    }
}

/// A pass of the mission state machine over the first `n` agents keeps
/// the reserved cargo cells and the agents in agreement.
pub proof fn law_missions_keep_cargo_ledger(fleet: Seq<Robot>, p: Pools, delta_ms: u32, n: int)
    requires
        0 <= n <= fleet.len(),
        p.cargo.valid(),
        cargo_ledger(fleet, p.cargo.taken),
    ensures
        missions_progressed(fleet, p, delta_ms, n).0.len() == fleet.len(),
        missions_progressed(fleet, p, delta_ms, n).1.cargo.valid(),
        cargo_ledger(
            missions_progressed(fleet, p, delta_ms, n).0,
            missions_progressed(fleet, p, delta_ms, n).1.cargo.taken,
        ),
    decreases n,
{
    if n > 0 {
        law_missions_keep_cargo_ledger(fleet, p, delta_ms, n - 1);
        let (before, pools) = missions_progressed(fleet, p, delta_ms, n - 1);
        law_mission_step_keeps_cargo_ledger(before, n - 1, pools, delta_ms);
    }
}

/// The admission of an agent keeps the reserved cargo cells and the agents
/// in agreement, whether the agent is admitted or not.
pub proof fn law_spawn_keeps_cargo_ledger(fleet: Seq<Robot>, p: Pools, id: AgentId, pos: GridPos, r: Robot)
    requires
        p.cargo.valid(),
        cargo_ledger(fleet, p.cargo.taken),
        acquire_for_spawn(p).1.is_some() ==> new_robot(
            id,
            pos,
            acquire_for_spawn(p).1.unwrap().0,
            acquire_for_spawn(p).1.unwrap().1,
            r,
        ),
    ensures
        acquire_for_spawn(p).1.is_some() ==> cargo_ledger(fleet.push(r), acquire_for_spawn(p).0.cargo.taken),
        acquire_for_spawn(p).1.is_none() ==> cargo_ledger(fleet, acquire_for_spawn(p).0.cargo.taken),
{
    p.cargo.lemma_pick();
    let (q, pair) = acquire_for_spawn(p);
    if pair.is_some() {
        let c = pair.unwrap().1;
        let after = fleet.push(r);
        let n = fleet.len() as int;
        assert forall|j: int, t: GridPos| j != n implies claims_cargo(after, j, t) == claims_cargo(fleet, j, t) by {}
        assert forall|t: GridPos| #[trigger] q.cargo.taken.contains(t) implies exists|j: int|
            claims_cargo(after, j, t) by {
            if t == c {
                assert(claims_cargo(after, n, t));
            } else {
                let j = choose|j: int| claims_cargo(fleet, j, t);
                assert(claims_cargo(after, j, t));
            }
        }
        assert forall|j: int, t: GridPos| #[trigger] claims_cargo(after, j, t) implies q.cargo.taken.contains(
            t,
        ) by {
            if j != n {
                assert(claims_cargo(fleet, j, t));
            }
        }
        assert forall|j: int, k: int, t: GridPos|
            #[trigger] claims_cargo(after, j, t) && #[trigger] claims_cargo(after, k, t) implies j == k by {
            if j != n && k != n {
                assert(claims_cargo(fleet, j, t) && claims_cargo(fleet, k, t));
            } else if j != n {
                assert(claims_cargo(fleet, j, t));
            } else if k != n {
                assert(claims_cargo(fleet, k, t));
            }
        }
    }
}

} // verus!
