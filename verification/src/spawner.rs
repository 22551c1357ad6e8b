//! Admission of new agents and the mission state machine that keeps every
//! agent shuttling between a storage cell and a cargo cell.

use crate::constants::DROPOFF_DURATION_MS;
use crate::constants::PICKUP_DURATION_MS;
use crate::constants::ROBOT_COUNT;
use crate::mission::ActionTimer;
use crate::mission::Mission;
use crate::mission::MissionPhase;
use crate::robot::Robot;
use crate::robot::RobotState;
use crate::types::AgentId;
use crate::types::GridPos;
use crate::zones::PoolState;
use crate::zones::WarehouseZones;
use vstd::prelude::*;

verus! {

/// The two pools from which missions reserve their cells.
#[verifier::ext_equal]
pub struct Pools {
    pub storage: PoolState,
    pub cargo: PoolState,
}

/// The pools of `zones`.
pub open spec fn pools_of(zones: &WarehouseZones) -> Pools {
    Pools { storage: zones.storage_state(), cargo: zones.cargo_state() }
}

/// What an attempt to reserve a storage cell and a cargo cell at once does
/// to the pools, and the pair it yields. Both pools are asked; where only
/// one of them has a free cell, that cell is given back, and only the
/// cursor of its pool has moved.
pub open spec fn acquire_pair(p: Pools) -> (Pools, Option<(GridPos, GridPos)>) {
    let storage = p.storage.reserved();
    let cargo = p.cargo.reserved();
    match (p.storage.picked(), p.cargo.picked()) {
        (Some(s), Some(c)) => (Pools { storage, cargo }, Some((s, c))),
        (Some(s), None) => (Pools { storage: storage.released(s), cargo }, None),
        (None, Some(c)) => (Pools { storage, cargo: cargo.released(c) }, None),
        (None, None) => (Pools { storage, cargo }, None),
    }
}

/// The agent and the pools after an attempt to give the agent a new
/// mission: with a pair of cells it sets out for the storage cell;
/// without, it idles. Either way it carries no load.
pub open spec fn reassign(r: Robot, p: Pools) -> (Robot, Pools) {
    let (after, pair) = acquire_pair(p);
    match pair {
        Some((s, c)) => (
            Robot {
                mission: Mission { phase: MissionPhase::GoingToStorage, storage_target: s, cargo_target: c },
                destination: s,
                state: RobotState::Moving,
                loaded: false,
                ..r
            },
            after,
        ),
        None => (Robot { state: RobotState::Idle, loaded: false, ..r }, after),
    }
}

/// The agent waits for a new mission: its drop-off is over, it carries no
/// load, and it idles because no pair of cells could be had.
pub open spec fn awaits_mission(r: Robot) -> bool {
    &&& r.mission.phase == MissionPhase::DroppingOff
    &&& r.timer.is_none()
    &&& r.state == RobotState::Idle
    &&& !r.loaded
}

/// One step of the mission state machine for the agent `r`, after
/// `delta_ms` more milliseconds.
///
/// On its way to the storage cell the agent begins the pickup when it
/// stands on that cell. When the pickup is over it is loaded, gives the
/// storage cell back and sets out for the cargo cell. There it begins the
/// drop-off, and when that is over it is unloaded, gives the cargo cell
/// back and is given a new mission, or idles until one can be had. An
/// agent that idles so, without load and without timer, tries again on
/// every step; any other agent without a timer in its drop-off stays as it
/// is.
pub open spec fn mission_step(r: Robot, p: Pools, delta_ms: u32) -> (Robot, Pools) {
    match r.mission.phase {
        MissionPhase::GoingToStorage => if r.position == r.mission.storage_target {
            (
                Robot {
                    mission: Mission { phase: MissionPhase::PickingUp, ..r.mission },
                    state: RobotState::Loading,
                    timer: Some(ActionTimer { remaining_ms: PICKUP_DURATION_MS }),
                    ..r
                },
                p,
            )
        } else {
            (r, p)
        },
        MissionPhase::PickingUp => match r.timer {
            Some(t) => if t.expires_within(delta_ms) {
                (
                    Robot {
                        loaded: true,
                        mission: Mission { phase: MissionPhase::GoingToCargo, ..r.mission },
                        destination: r.mission.cargo_target,
                        state: RobotState::Moving,
                        timer: None,
                        ..r
                    },
                    Pools { storage: p.storage.released(r.mission.storage_target), cargo: p.cargo },
                )
            } else {
                (Robot { timer: Some(t.after(delta_ms)), ..r }, p)
            },
            None => (r, p),
        },
        MissionPhase::GoingToCargo => if r.position == r.mission.cargo_target {
            (
                Robot {
                    mission: Mission { phase: MissionPhase::DroppingOff, ..r.mission },
                    state: RobotState::Unloading,
                    timer: Some(ActionTimer { remaining_ms: DROPOFF_DURATION_MS }),
                    ..r
                },
                p,
            )
        } else {
            (r, p)
        },
        MissionPhase::DroppingOff => match r.timer {
            Some(t) => if t.expires_within(delta_ms) {
                reassign(
                    Robot { loaded: false, timer: None, ..r },
                    Pools { storage: p.storage, cargo: p.cargo.released(r.mission.cargo_target) },
                )
            } else {
                (Robot { timer: Some(t.after(delta_ms)), ..r }, p)
            },
            None => if awaits_mission(r) {
                reassign(r, p)
            } else {
                (r, p)
            },
        },
    }
}

/// The fleet and the pools after the first `n` agents of the fleet have
/// taken their step of the mission state machine, one after the other.
pub open spec fn missions_progressed(fleet: Seq<Robot>, p: Pools, delta_ms: u32, n: int) -> (Seq<Robot>, Pools)
    decreases n,
{
    if n <= 0 {
        (fleet, p)
    } else {
        let (before, pools) = missions_progressed(fleet, p, delta_ms, n - 1);
        let (robot, after) = mission_step(before[n - 1], pools, delta_ms);
        (before.update(n - 1, robot), after)
    }
}

/// Tries to reserve a storage cell and a cargo cell for one mission.
fn try_acquire_pair(zones: &mut WarehouseZones) -> (pair: Option<(GridPos, GridPos)>)
    requires
        old(zones).wf(),
    ensures
        final(zones).wf(),
        final(zones).same_floor(old(zones)),
        (pools_of(final(zones)), pair) == acquire_pair(pools_of(old(zones))),
{
    let new_storage = zones.reserve_storage();
    let new_cargo = zones.reserve_cargo();
    match (new_storage, new_cargo) {
        (Some(storage), Some(cargo)) => Some((storage, cargo)),
        (Some(storage), None) => {
            zones.release_storage(storage);
            None
        },
        (None, Some(cargo)) => {
            zones.release_cargo(cargo);
            None
        },
        (None, None) => None,
    }
}

/// Gives the agent a new mission if a pair of cells can be had, and lets
/// it idle otherwise.
fn assign_or_idle(robot: &mut Robot, zones: &mut WarehouseZones)
    requires
        old(zones).wf(),
    ensures
        final(zones).wf(),
        final(zones).same_floor(old(zones)),
        (*final(robot), pools_of(final(zones))) == reassign(*old(robot), pools_of(old(zones))),
{
    match try_acquire_pair(zones) {
        Some((storage, cargo)) => {
            robot.mission = Mission { phase: MissionPhase::GoingToStorage, storage_target: storage, cargo_target: cargo };
            robot.destination = storage;
            robot.state = RobotState::Moving;
            robot.loaded = false;
        },
        None => {
            robot.state = RobotState::Idle;
            robot.loaded = false;
        },
    }
}

/// Lets one agent take its step of the mission state machine.
pub fn advance_mission(robot: &mut Robot, zones: &mut WarehouseZones, delta_ms: u32)
    requires
        old(zones).wf(),
    ensures
        final(zones).wf(),
        final(zones).same_floor(old(zones)),
        (*final(robot), pools_of(final(zones))) == mission_step(*old(robot), pools_of(old(zones)), delta_ms),
{
    match robot.mission.phase {
        MissionPhase::GoingToStorage => {
            if robot.position == robot.mission.storage_target {
                robot.mission.phase = MissionPhase::PickingUp;
                robot.state = RobotState::Loading;
                robot.timer = Some(ActionTimer::new(PICKUP_DURATION_MS));
            }
        },
        MissionPhase::PickingUp => {
            if let Some(mut t) = robot.timer {
                if t.tick(delta_ms) {
                    robot.loaded = true;
                    robot.mission.phase = MissionPhase::GoingToCargo;
                    robot.destination = robot.mission.cargo_target;
                    robot.state = RobotState::Moving;
                    robot.timer = None;
                    zones.release_storage(robot.mission.storage_target);
                } else {
                    robot.timer = Some(t);
                }
            }
        },
        MissionPhase::GoingToCargo => {
            if robot.position == robot.mission.cargo_target {
                robot.mission.phase = MissionPhase::DroppingOff;
                robot.state = RobotState::Unloading;
                robot.timer = Some(ActionTimer::new(DROPOFF_DURATION_MS));
            }
        },
        MissionPhase::DroppingOff => {
            if let Some(mut t) = robot.timer {
                if t.tick(delta_ms) {
                    robot.loaded = false;
                    robot.timer = None;
                    zones.release_cargo(robot.mission.cargo_target);
                    assign_or_idle(robot, zones);
                } else {
                    robot.timer = Some(t);
                }
            } else if robot.state == RobotState::Idle && !robot.loaded {
                assign_or_idle(robot, zones);
            }
        },
    }
}

/// Lets every agent of the fleet take its step of the mission state
/// machine, in the order of the fleet.
pub fn mission_progression_system(fleet: &mut Vec<Robot>, zones: &mut WarehouseZones, delta_ms: u32)
    requires
        old(zones).wf(),
    ensures
        final(zones).wf(),
        final(zones).same_floor(old(zones)),
        final(fleet)@.len() == old(fleet)@.len(),
        (final(fleet)@, pools_of(final(zones))) == missions_progressed(
            old(fleet)@,
            pools_of(old(zones)),
            delta_ms,
            old(fleet)@.len() as int,
        ),
{
    let n: usize = fleet.len();
    let mut i: usize = 0;
    while i < n
        invariant
            i <= n,
            n == fleet@.len(),
            n == old(fleet)@.len(),
            zones.wf(),
            zones.same_floor(old(zones)),
            (fleet@, pools_of(zones)) == missions_progressed(
                old(fleet)@,
                pools_of(old(zones)),
                delta_ms,
                i as int,
            ),
        decreases n - i,
    {
        advance_mission(&mut fleet[i], zones, delta_ms);
        i += 1;
    }
}

/// How many agents are to be admitted in all, how many have been, and how
/// long the spawner waits between two of them.
#[derive(Debug, Clone, Copy, PartialEq, Eq, Structural)]
pub struct SpawnQueue {
    pub total: u32,
    pub spawned_count: u32,
    pub cooldown_ticks: u64,
    pub last_spawn_tick: u64,
}

impl Default for SpawnQueue {
    fn default() -> (q: SpawnQueue)
        ensures
            q == (SpawnQueue { total: ROBOT_COUNT, spawned_count: 0, cooldown_ticks: 20, last_spawn_tick: 0 }),
    {
        SpawnQueue { total: ROBOT_COUNT, spawned_count: 0, cooldown_ticks: 20, last_spawn_tick: 0 }
    }
}

impl SpawnQueue {
    /// Whether every agent has been admitted.
    pub open spec fn complete(self) -> bool {
        self.spawned_count >= self.total
    }

    /// Whether the spawner may admit an agent at `tick`: agents are still
    /// due and the waiting time since the last admission is over.
    pub open spec fn due(self, tick: u64) -> bool {
        !self.complete() && tick >= self.last_spawn_tick + self.cooldown_ticks
    }

    /// The queue after an admission at `tick`.
    pub open spec fn admitted(self, tick: u64) -> SpawnQueue {
        SpawnQueue { spawned_count: (self.spawned_count + 1) as u32, last_spawn_tick: tick, ..self }
    }

    /// Whether every agent has been admitted.
    pub fn is_complete(&self) -> (done: bool)
        ensures
            done == self.complete(),
    {
        self.spawned_count >= self.total
    }

    /// Whether the spawner may admit an agent at `tick`.
    pub fn is_due(&self, tick: u64) -> (due: bool)
        ensures
            due == self.due(tick),
    {
        !self.is_complete() && tick >= self.cooldown_ticks && tick - self.cooldown_ticks >= self.last_spawn_tick
    }
}

/// Some agent of the fleet stands on `pos`.
pub open spec fn occupied(fleet: Seq<Robot>, pos: GridPos) -> bool {
    exists|i: int| 0 <= i < fleet.len() && (#[trigger] fleet[i]).position == pos
}

/// What the reservation of a pair of cells for a new agent does to the
/// pools, and the pair it yields. The storage pool is asked first; the
/// cargo pool is asked only when a storage cell was had, and when it has
/// none the storage cell is given back.
pub open spec fn acquire_for_spawn(p: Pools) -> (Pools, Option<(GridPos, GridPos)>) {
    match p.storage.picked() {
        None => (p, None),
        Some(s) => match p.cargo.picked() {
            None => (Pools { storage: p.storage.reserved().released(s), cargo: p.cargo }, None),
            Some(c) => (Pools { storage: p.storage.reserved(), cargo: p.cargo.reserved() }, Some((s, c))),
        },
    }
}

/// The agent that the spawner admits under the handle `id` on the cell
/// `pos`, with the mission from `storage` to `cargo`.
pub open spec fn new_robot(id: AgentId, pos: GridPos, storage: GridPos, cargo: GridPos, r: Robot) -> bool {
    &&& r.id == id
    &&& r.position == pos
    &&& r.destination == storage
    &&& r.state == RobotState::Moving
    &&& r.priority == 0
    &&& !r.loaded
    &&& r.energy_permille == 1000
    &&& r.mission == (Mission { phase: MissionPhase::GoingToStorage, storage_target: storage, cargo_target: cargo })
    &&& r.timer.is_none()
    &&& r.path.waypoints@ == Seq::<(GridPos, u64)>::empty()
    &&& r.path.current_index == 0
}

/// Decides whether an agent stands on `pos`.
pub fn is_occupied(fleet: &Vec<Robot>, pos: GridPos) -> (taken: bool)
    ensures
        taken == occupied(fleet@, pos),
{
    let mut i: usize = 0;
    while i < fleet.len()
        invariant
            i <= fleet@.len(),
            forall|j: int| 0 <= j < i ==> (#[trigger] fleet@[j]).position != pos,
        decreases fleet@.len() - i,
    {
        if fleet[i].position == pos {
            return true;
        }
        i += 1;
    }
    false
}

/// Admits one agent under the handle `id` if the spawner is due: the next
/// spawn point must be empty, and a storage cell and a cargo cell must be
/// had for the agent's first mission. Says whether the agent was admitted.
///
/// Where the spawner is not due, or there is no spawn point, nothing
/// changes. Otherwise the round of spawn points moves on, whatever comes of
/// the admission.
pub fn sequential_spawn_system(
    queue: &mut SpawnQueue,
    zones: &mut WarehouseZones,
    fleet: &mut Vec<Robot>,
    current_tick: u64,
    id: AgentId,
) -> (admitted: bool)
    requires
        old(zones).wf(),
    ensures
        final(zones).wf(),
        final(zones).spawn_seq() == old(zones).spawn_seq(),
        final(zones).rack_seq() == old(zones).rack_seq(),
        !(old(queue).due(current_tick) && old(zones).spawn_seq().len() > 0) ==> {
            &&& !admitted
            &&& *final(queue) == *old(queue)
            &&& final(fleet)@ == old(fleet)@
            &&& pools_of(final(zones)) == pools_of(old(zones))
            &&& final(zones).spawn_cursor() == old(zones).spawn_cursor()
        },
        old(queue).due(current_tick) && old(zones).spawn_seq().len() > 0 ==> {
            let pos = old(zones).spawn_seq()[old(zones).spawn_cursor()];
            let (pools, pair) = acquire_for_spawn(pools_of(old(zones)));
            &&& final(zones).spawn_cursor() == (if old(zones).spawn_cursor() + 1 < old(zones).spawn_seq().len() {
                old(zones).spawn_cursor() + 1
            } else {
                0
            })
            &&& admitted == (!occupied(old(fleet)@, pos) && pair.is_some())
            &&& occupied(old(fleet)@, pos) ==> pools_of(final(zones)) == pools_of(old(zones))
            &&& !occupied(old(fleet)@, pos) ==> pools_of(final(zones)) == pools
            &&& !admitted ==> *final(queue) == *old(queue) && final(fleet)@ == old(fleet)@
            &&& admitted ==> {
                &&& *final(queue) == old(queue).admitted(current_tick)
                &&& final(fleet)@.len() == old(fleet)@.len() + 1
                &&& final(fleet)@.subrange(0, old(fleet)@.len() as int) == old(fleet)@
                &&& new_robot(id, pos, pair.unwrap().0, pair.unwrap().1, final(fleet)@[old(fleet)@.len() as int])
            }
        },
{
    if !queue.is_due(current_tick) {
        return false;
    }
    if zones.spawn_points().len() == 0 {
        return false;
    }
    let spawn_pos = zones.next_spawn();
    if is_occupied(fleet, spawn_pos) {
        return false;
    }
    let storage_target = match zones.reserve_storage() {
        Some(cell) => cell,
        None => {
            return false;
        },
    };
    let cargo_target = match zones.reserve_cargo() {
        Some(cell) => cell,
        None => {
            zones.release_storage(storage_target);
            return false;
        },
    };
    fleet.push(Robot::spawn(id, spawn_pos, storage_target, cargo_target));
    queue.spawned_count += 1;
    queue.last_spawn_tick = current_tick;
    proof {
        assert(final(fleet)@.subrange(0, old(fleet)@.len() as int) =~= old(fleet)@);
    }
    true
}

} // verus!
