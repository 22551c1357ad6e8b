//! Read-only views of the fleet for those who watch it.

use crate::mission::ActionTimer;
use crate::mission::MissionPhase;
use crate::robot::Robot;
use crate::robot::RobotState;
use crate::types::AgentId;
use crate::types::GridPos;
use vstd::prelude::*;

verus! {

/// What an observer sees of one agent.
#[derive(Debug, Clone)]
pub struct AgentSnapshot {
    pub position: GridPos,
    pub destination: GridPos,
    pub state: RobotState,
    pub phase: MissionPhase,
    pub loaded: bool,
    /// Charge of the battery, in thousandths of a full charge.
    pub energy_permille: u16,
    pub priority: u8,
    /// The waypoints that the agent has still to reach.
    pub remaining: Vec<(GridPos, u64)>,
    pub action_timer: Option<ActionTimer>,
}

/// The snapshot `s` shows the agent `r` as it is.
pub open spec fn shows(r: Robot, s: AgentSnapshot) -> bool {
    &&& s.position == r.position
    &&& s.destination == r.destination
    &&& s.state == r.state
    &&& s.phase == r.mission.phase
    &&& s.loaded == r.loaded
    &&& s.energy_permille == r.energy_permille
    &&& s.priority == r.priority
    &&& s.remaining@ == r.path.rest()
    &&& s.action_timer == r.timer
}

/// The first place of the fleet at which the agent `id` stands, if it is in
/// the fleet.
pub open spec fn place_of(fleet: Seq<Robot>, id: AgentId, at: int) -> bool {
    &&& 0 <= at < fleet.len()
    &&& fleet[at].id == id
    &&& forall|j: int| 0 <= j < at ==> (#[trigger] fleet[j]).id != id
}

impl Robot {
    /// What an observer sees of this agent.
    pub fn snapshot(&self) -> (s: AgentSnapshot)
        ensures
            shows(*self, s),
    {
        let rest = self.path.remaining();
        let mut remaining: Vec<(GridPos, u64)> = Vec::with_capacity(rest.len());
        let mut i: usize = 0;
        while i < rest.len()
            invariant
                i <= rest@.len(),
                remaining@ == rest@.subrange(0, i as int),
            decreases rest@.len() - i,
        {
            remaining.push(rest[i]);
            assert(remaining@ =~= rest@.subrange(0, i + 1));
            i += 1;
        }
        assert(remaining@ =~= rest@);
        AgentSnapshot {
            position: self.position,
            destination: self.destination,
            state: self.state,
            phase: self.mission.phase,
            loaded: self.loaded,
            energy_permille: self.energy_permille,
            priority: self.priority,
            remaining,
            action_timer: self.timer,
        }
    }
}

/// What an observer sees of the agent `id`: nothing when the fleet has no
/// such agent.
pub fn agent_snapshot(fleet: &Vec<Robot>, id: AgentId) -> (s: Option<AgentSnapshot>)
    ensures
        s.is_none() <==> forall|i: int| 0 <= i < fleet@.len() ==> (#[trigger] fleet@[i]).id != id,
        s.is_some() ==> exists|at: int| #[trigger] place_of(fleet@, id, at) && shows(fleet@[at], s.unwrap()),
{
    let mut i: usize = 0;
    while i < fleet.len()
        invariant
            i <= fleet@.len(),
            forall|j: int| 0 <= j < i ==> (#[trigger] fleet@[j]).id != id,
        decreases fleet@.len() - i,
    {
        if fleet[i].id == id {
            let s = fleet[i].snapshot();
            assert(place_of(fleet@, id, i as int));
            return Some(s);
        }
        i += 1;
    }
    None
}

/// What an observer sees of every agent, in the order of the fleet.
pub fn fleet_snapshots(fleet: &Vec<Robot>) -> (all: Vec<(AgentId, AgentSnapshot)>)
    ensures
        all@.len() == fleet@.len(),
        forall|i: int|
            0 <= i < fleet@.len() ==> (#[trigger] all@[i]).0 == fleet@[i].id && shows(fleet@[i], all@[i].1),
{
    let mut all: Vec<(AgentId, AgentSnapshot)> = Vec::with_capacity(fleet.len());
    let mut i: usize = 0;
    while i < fleet.len()
        invariant
            i <= fleet@.len(),
            all@.len() == i,
            forall|j: int| 0 <= j < i ==> (#[trigger] all@[j]).0 == fleet@[j].id && shows(fleet@[j], all@[j].1),
        decreases fleet@.len() - i,
    {
        let s = fleet[i].snapshot();
        all.push((fleet[i].id, s));
        i += 1;
    }
    all
}

} // verus!
