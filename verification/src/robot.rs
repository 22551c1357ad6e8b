//! An agent of the fleet and what it carries from tick to tick.

use crate::mission::ActionTimer;
use crate::mission::Mission;
use crate::mission::MissionPhase;
use crate::types::AgentId;
use crate::types::GridPos;
use vstd::prelude::*;
use vstd::slice::slice_subrange;

verus! {

/// What an agent is doing.
#[derive(Debug, Clone, Copy, PartialEq, Eq, Structural)]
pub enum RobotState {
    Idle,
    Moving,
    Loading,
    Unloading,
    Charging,
    Fault,
}

impl Default for RobotState {
    fn default() -> (s: RobotState)
        ensures
            s == RobotState::Idle,
    {
        RobotState::Idle
    }
}

impl RobotState {
    /// The priority that the state alone gives; a lower number plans
    /// earlier.
    pub open spec fn base(self) -> u8 {
        match self {
            RobotState::Fault => 0,
            RobotState::Loading => 10,
            RobotState::Unloading => 10,
            RobotState::Moving => 20,
            RobotState::Idle => 30,
            RobotState::Charging => 40,
        }
    }

    /// Whether an agent in this state stays where it is for the whole
    /// planning cycle.
    pub open spec fn stationary(self) -> bool {
        self == RobotState::Idle || self == RobotState::Loading || self == RobotState::Unloading || self
            == RobotState::Charging
    }

    /// The priority that the state alone gives; a lower number plans
    /// earlier.
    pub fn base_priority(&self) -> (p: u8)
        ensures
            p == self.base(),
    {
        match self {
            RobotState::Fault => 0,
            RobotState::Loading | RobotState::Unloading => 10,
            RobotState::Moving => 20,
            RobotState::Idle => 30,
            RobotState::Charging => 40,
        }
    }

    /// Whether an agent in this state stays where it is for the whole
    /// planning cycle.
    pub fn is_stationary(&self) -> (s: bool)
        ensures
            s == self.stationary(),
    {
        match self {
            RobotState::Idle | RobotState::Loading | RobotState::Unloading | RobotState::Charging => true,
            _ => false,
        }
    }
}

/// A planned trajectory and how far the agent has followed it.
#[derive(Debug, Clone)]
pub struct PlannedPath {
    pub waypoints: Vec<(GridPos, u64)>,
    pub current_index: usize,
}

impl Default for PlannedPath {
    fn default() -> (p: PlannedPath)
        ensures
            p.waypoints@ == Seq::<(GridPos, u64)>::empty(),
            p.current_index == 0,
    {
        PlannedPath { waypoints: Vec::new(), current_index: 0 }
    }
}

impl PlannedPath {
    /// The waypoints that the agent has still to reach.
    pub open spec fn rest(&self) -> Seq<(GridPos, u64)> {
        if self.current_index <= self.waypoints@.len() {
            self.waypoints@.subrange(self.current_index as int, self.waypoints@.len() as int)
        } else {
            Seq::empty()
        }
    }

    /// The waypoint that the agent heads for now, if any is left.
    pub open spec fn head(&self) -> Option<(GridPos, u64)> {
        if self.current_index < self.waypoints@.len() {
            Some(self.waypoints@[self.current_index as int])
        } else {
            None
        }
    }

    /// A path that begins at its first waypoint.
    pub fn new(waypoints: Vec<(GridPos, u64)>) -> (p: PlannedPath)
        ensures
            p.waypoints == waypoints,
            p.current_index == 0,
    {
        PlannedPath { waypoints, current_index: 0 }
    }

    /// Forgets the path.
    pub fn clear(&mut self)
        ensures
            final(self).waypoints@ == Seq::<(GridPos, u64)>::empty(),
            final(self).current_index == 0,
    {
        self.waypoints.clear();
        self.current_index = 0;
    }

    /// The waypoint that the agent heads for now, if any is left.
    pub fn current(&self) -> (w: Option<(GridPos, u64)>)
        ensures
            w == self.head(),
    {
        if self.current_index < self.waypoints.len() {
            Some(self.waypoints[self.current_index])
        } else {
            None
        }
    }

    /// Goes on to the next waypoint, unless none is left.
    pub fn advance(&mut self)
        ensures
            final(self).waypoints == old(self).waypoints,
            final(self).current_index == if old(self).current_index < old(self).waypoints@.len() {
                old(self).current_index + 1
            } else {
                old(self).current_index as int
            },
    {
        if self.current_index < self.waypoints.len() {
            self.current_index += 1;
        }
    }

    /// Whether no waypoint is left.
    pub fn is_complete(&self) -> (done: bool)
        ensures
            done == self.head().is_none(),
            done == (self.rest().len() == 0),
    {
        self.current_index >= self.waypoints.len()
    }

    /// The waypoints that the agent has still to reach.
    pub fn remaining(&self) -> (rest: &[(GridPos, u64)])
        ensures
            rest@ == self.rest(),
    {
        let len = self.waypoints.len();
        if self.current_index <= len {
            slice_subrange(self.waypoints.as_slice(), self.current_index, len)
        } else {
            slice_subrange(self.waypoints.as_slice(), len, len)
        }
    }
}

/// Energy below which an agent counts as low on battery, in thousandths
/// of a full charge.
pub const LOW_ENERGY_PERMILLE: u16 = 200;

/// Priority points that a loaded agent gains.
pub const LOADED_BONUS: u8 = 15;

/// Priority points that an agent low on battery gains.
pub const LOW_ENERGY_BONUS: u8 = 10;

/// An agent of the fleet.
#[derive(Debug, Clone)]
pub struct Robot {
    /// The handle by which the agent is known.
    pub id: AgentId,
    /// The cell on which the agent stands.
    pub position: GridPos,
    /// The cell that the agent heads for.
    pub destination: GridPos,
    pub state: RobotState,
    /// Planning priority; a lower number plans earlier.
    pub priority: u8,
    /// Whether the agent carries a load.
    pub loaded: bool,
    /// Charge of the battery, in thousandths of a full charge.
    pub energy_permille: u16,
    pub mission: Mission,
    /// The time left of a pickup or a drop-off, while one goes on.
    pub timer: Option<ActionTimer>,
    pub path: PlannedPath,
}

impl Robot {
    /// The priority that state, load and battery give: the base priority
    /// of the state, less 15 when loaded, less 10 when low on battery, and
    /// never below 0.
    pub open spec fn due_priority(&self) -> u8 {
        let base: int = self.state.base() as int;
        let after_load: int = if self.loaded {
            if base >= LOADED_BONUS {
                base - LOADED_BONUS
            } else {
                0
            }
        } else {
            base
        };
        let after_energy: int = if self.energy_permille < LOW_ENERGY_PERMILLE {
            if after_load >= LOW_ENERGY_BONUS {
                after_load - LOW_ENERGY_BONUS
            } else {
                0
            }
        } else {
            after_load
        };
        after_energy as u8
    }

    /// The score by which the replanner orders the fleet: the priority,
    /// with 50 added for an agent without load, and never above 255.
    pub open spec fn planning_score(&self) -> u8 {
        if self.loaded {
            self.priority
        } else if self.priority + 50 > 255 {
            255
        } else {
            (self.priority + 50) as u8
        }
    }

    /// An agent that has just been admitted: it stands on `position`, full
    /// of energy and without load, on its way to the storage cell.
    pub fn spawn(id: AgentId, position: GridPos, storage: GridPos, cargo: GridPos) -> (r: Robot)
        ensures
            r.id == id,
            r.position == position,
            r.destination == storage,
            r.state == RobotState::Moving,
            r.priority == 0,
            !r.loaded,
            r.energy_permille == 1000,
            r.mission == (Mission { phase: MissionPhase::GoingToStorage, storage_target: storage, cargo_target: cargo }),
            r.timer.is_none(),
            r.path.waypoints@ == Seq::<(GridPos, u64)>::empty(),
            r.path.current_index == 0,
    {
        Robot {
            id,
            position,
            destination: storage,
            state: RobotState::Moving,
            priority: 0,
            loaded: false,
            energy_permille: 1000,
            mission: Mission::new(storage, cargo),
            timer: None,
            path: PlannedPath { waypoints: Vec::new(), current_index: 0 },
        }
    }

    /// Computes the priority that state, load and battery give.
    pub fn compute_priority(&self) -> (p: u8)
        ensures
            p == self.due_priority(),
    {
        let mut p: u8 = self.state.base_priority();
        if self.loaded {
            p = p.saturating_sub(LOADED_BONUS);
        }
        if self.energy_permille < LOW_ENERGY_PERMILLE {
            p = p.saturating_sub(LOW_ENERGY_BONUS);
        }
        p
    }

    /// Computes the score by which the replanner orders the fleet.
    pub fn score(&self) -> (s: u8)
        ensures
            s == self.planning_score(),
    {
        let bonus: u8 = if self.loaded { 0 } else { 50 };
        self.priority.saturating_add(bonus)
    }
}

} // verus!
