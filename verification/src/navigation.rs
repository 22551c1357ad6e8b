//! What happens around planning on every tick: the clock moves on, every
//! agent follows its path, and agents that are stuck give up their
//! reservations.

use crate::robot::PlannedPath;
use crate::robot::Robot;
use crate::robot::RobotState;
use crate::spacetime::SpaceTimeKey;
use crate::spacetime::SpaceTimeTable;
use crate::types::AgentId;
use vstd::prelude::*;

verus! {

/// The agent after the path executor has run at tick `now`: where the
/// waypoint it heads for is due, it stands on that waypoint's cell and
/// heads for the next one.
pub open spec fn executed(r: Robot, now: u64) -> Robot {
    match r.path.head() {
        Some(w) => if now >= w.1 {
            Robot {
                position: w.0,
                path: PlannedPath {
                    waypoints: r.path.waypoints,
                    current_index: (r.path.current_index + 1) as usize,
                },
                ..r
            }
        } else {
            r
        },
        None => r,
    }
}

/// Moves every agent whose next waypoint is due at the tick of the table's
/// clock onto that waypoint.
pub fn path_execution_system(fleet: &mut Vec<Robot>, space_time: &SpaceTimeTable)
    ensures
        final(fleet)@.len() == old(fleet)@.len(),
        forall|i: int|
            0 <= i < old(fleet)@.len() ==> #[trigger] final(fleet)@[i] == executed(
                old(fleet)@[i],
                space_time.clock(),
            ),
{
    let current_tick: u64 = space_time.current_tick();
    let n: usize = fleet.len();
    let mut i: usize = 0;
    while i < n
        invariant
            i <= n,
            n == fleet@.len(),
            n == old(fleet)@.len(),
            current_tick == space_time.clock(),
            forall|j: int| 0 <= j < i ==> #[trigger] fleet@[j] == executed(old(fleet)@[j], current_tick),
            forall|j: int| i <= j < n ==> #[trigger] fleet@[j] == old(fleet)@[j],
        decreases n - i,
    {
        if !fleet[i].path.is_complete() {
            if let Some((next_pos, target_tick)) = fleet[i].path.current() {
                if current_tick >= target_tick {
                    fleet[i].position = next_pos;
                    fleet[i].path.advance();
                }
            }
        }
        i += 1;
    }
}

/// The agents at the places `i` and `j` of the fleet, the one before the
/// other, stand on one cell.
pub open spec fn collide(fleet: Seq<Robot>, i: int, j: int) -> bool {
    0 <= i < j < fleet.len() && fleet[i].position == fleet[j].position
}

/// The pair `(i, j)` comes before the pair `(a, b)`.
pub open spec fn pair_before(i: int, j: int, a: int, b: int) -> bool {
    i < a || (i == a && j < b)
}

/// Looks for two agents that stand on one cell, and returns the places of
/// the first such pair; nothing when every agent has a cell to itself.
pub fn find_collision(fleet: &Vec<Robot>) -> (pair: Option<(usize, usize)>)
    ensures
        pair.is_none() <==> forall|i: int, j: int| !collide(fleet@, i, j),
        pair.is_some() ==> collide(fleet@, pair.unwrap().0 as int, pair.unwrap().1 as int) && forall|a: int, b: int|
            collide(fleet@, a, b) ==> !pair_before(a, b, pair.unwrap().0 as int, pair.unwrap().1 as int),
{
    let n: usize = fleet.len();
    let mut i: usize = 0;
    while i < n
        invariant
            i <= n,
            n == fleet@.len(),
            forall|a: int, b: int| collide(fleet@, a, b) ==> a >= i,
        decreases n - i,
    {
        let mut j: usize = i + 1;
        while j < n
            invariant
                i < j <= n,
                n == fleet@.len(),
                forall|a: int, b: int| collide(fleet@, a, b) ==> a >= i,
                forall|b: int| collide(fleet@, i as int, b) ==> b >= j,
            decreases n - j,
        {
            if fleet[i].position == fleet[j].position {
                assert(collide(fleet@, i as int, j as int));
                return Some((i, j));
            }
            j += 1;
        }
        i += 1;
    }
    None
}

/// Moves the clock of the table on by one tick.
pub fn simulation_tick_system(space_time: &mut SpaceTimeTable)
    requires
        old(space_time).clock() < u64::MAX,
    ensures
        final(space_time).clock() == old(space_time).clock() + 1,
        final(space_time)@ == old(space_time)@,
{
    space_time.advance_tick();
}

/// The agent is stuck: it should be moving and has no waypoint left.
pub open spec fn stuck(r: Robot) -> bool {
    r.state == RobotState::Moving && r.path.rest().len() == 0
}

/// How many of the first `n` agents of the fleet are stuck.
pub open spec fn stuck_count(fleet: Seq<Robot>, n: int) -> nat
    decreases n,
{
    if n <= 0 {
        0
    } else {
        stuck_count(fleet, n - 1) + if stuck(fleet[n - 1]) {
            1nat
        } else {
            0nat
        }
    }
}

/// One of the first `n` agents of the fleet is stuck and known by `id`.
pub open spec fn stuck_among(fleet: Seq<Robot>, n: int, id: AgentId) -> bool {
    exists|i: int| 0 <= i < n && i < fleet.len() && stuck(#[trigger] fleet[i]) && fleet[i].id == id
}

/// The reservations `m` without those of the stuck agents among the first
/// `n` of the fleet.
pub open spec fn without_stuck(m: Map<SpaceTimeKey, AgentId>, fleet: Seq<Robot>, n: int) -> Map<
    SpaceTimeKey,
    AgentId,
> {
    Map::new(|k: SpaceTimeKey| m.contains_key(k) && !stuck_among(fleet, n, m[k]), |k: SpaceTimeKey| m[k])
}

/// Drops the reservations of every stuck agent, so that the next planning
/// cycle plans for it afresh. Returns how many agents were stuck.
pub fn deadlock_detection_system(fleet: &Vec<Robot>, space_time: &mut SpaceTimeTable) -> (found: usize)
    ensures
        final(space_time)@ == without_stuck(old(space_time)@, fleet@, fleet@.len() as int),
        final(space_time).clock() == old(space_time).clock(),
        found == stuck_count(fleet@, fleet@.len() as int),
        found == 0 <==> forall|i: int| 0 <= i < fleet@.len() ==> !stuck(#[trigger] fleet@[i]),
{
    let mut found: usize = 0;
    let n: usize = fleet.len();
    let mut i: usize = 0;
    proof {
        assert(space_time@ =~= without_stuck(old(space_time)@, fleet@, 0));
    }
    while i < n
        invariant
            i <= n,
            n == fleet@.len(),
            found <= i,
            found == stuck_count(fleet@, i as int),
            found == 0 <==> forall|j: int| 0 <= j < i ==> !stuck(#[trigger] fleet@[j]),
            space_time@ == without_stuck(old(space_time)@, fleet@, i as int),
            space_time.clock() == old(space_time).clock(),
        decreases n - i,
    {
        let robot = &fleet[i];
        let is_stuck: bool = match robot.state {
            RobotState::Moving => robot.path.remaining().len() == 0,
            _ => false,
        };
        if is_stuck {
            let ghost before = space_time@;
            space_time.clear_entity(robot.id);
            found += 1;
            proof {
                assert forall|id: AgentId| stuck_among(fleet@, i + 1, id) <==> (stuck_among(
                    fleet@,
                    i as int,
                    id,
                ) || id == robot.id) by {
                    if stuck_among(fleet@, i + 1, id) {
                        let j = choose|j: int|
                            0 <= j < i + 1 && j < fleet@.len() && stuck(#[trigger] fleet@[j]) && fleet@[j].id
                                == id;
                        if j < i {
                            assert(stuck_among(fleet@, i as int, id));
                        }
                    }
                    if stuck_among(fleet@, i as int, id) {
                        let j = choose|j: int|
                            0 <= j < i && j < fleet@.len() && stuck(#[trigger] fleet@[j]) && fleet@[j].id == id;
                        assert(stuck(fleet@[j]) && fleet@[j].id == id);
                    }
                    if id == robot.id {
                        assert(stuck(fleet@[i as int]) && fleet@[i as int].id == id);
                    }
                }
                assert(space_time@ =~= without_stuck(old(space_time)@, fleet@, i + 1));
            }
        } else {
            proof {
                assert forall|id: AgentId| stuck_among(fleet@, i + 1, id) <==> stuck_among(
                    fleet@,
                    i as int,
                    id,
                ) by {
                    if stuck_among(fleet@, i + 1, id) {
                        let j = choose|j: int|
                            0 <= j < i + 1 && j < fleet@.len() && stuck(#[trigger] fleet@[j]) && fleet@[j].id
                                == id;
                        assert(j < i);
                    }
                    if stuck_among(fleet@, i as int, id) {
                        let j = choose|j: int|
                            0 <= j < i && j < fleet@.len() && stuck(#[trigger] fleet@[j]) && fleet@[j].id == id;
                        assert(stuck(fleet@[j]) && fleet@[j].id == id);
                    }
                }
                assert(space_time@ =~= without_stuck(old(space_time)@, fleet@, i + 1));
            }
        }
        i += 1;
    }
    found
}

} // verus!
