//! The mission of an agent: the pair of cells it shuttles between, and how
//! far along it is.

use crate::types::GridPos;
use vstd::prelude::*;

verus! {

/// How far an agent is along its mission.
#[derive(Debug, Clone, Copy, PartialEq, Eq, Structural)]
pub enum MissionPhase {
    GoingToStorage,
    PickingUp,
    GoingToCargo,
    DroppingOff,
}

impl Default for MissionPhase {
    fn default() -> (p: MissionPhase)
        ensures
            p == MissionPhase::GoingToStorage,
    {
        MissionPhase::GoingToStorage
    }
}

/// A mission: pick up at `storage_target`, drop off at `cargo_target`.
#[derive(Debug, Clone, Copy, PartialEq, Eq, Structural)]
pub struct Mission {
    pub phase: MissionPhase,
    pub storage_target: GridPos,
    pub cargo_target: GridPos,
}

impl Mission {
    /// A mission at its beginning.
    pub fn new(storage: GridPos, cargo: GridPos) -> (m: Mission)
        ensures
            m == (Mission { phase: MissionPhase::GoingToStorage, storage_target: storage, cargo_target: cargo }),
    {
        Mission { phase: MissionPhase::GoingToStorage, storage_target: storage, cargo_target: cargo }
    }
}

/// The time that a pickup or a drop-off still takes, in milliseconds.
#[derive(Debug, Clone, Copy, PartialEq, Eq, Structural)]
pub struct ActionTimer {
    pub remaining_ms: u32,
}

/// Nanoseconds in a millisecond.
pub const NANOS_PER_MILLI: u64 = 1_000_000;

/// The whole milliseconds in `carried_nanos + elapsed_nanos` nanoseconds,
/// and the nanoseconds that are left over. Where the milliseconds exceed
/// what a timer can count, they are the most it can count and nothing is
/// left over.
pub open spec fn millis_and_rest(carried_nanos: u64, elapsed_nanos: u64) -> (u32, u64) {
    let total: int = carried_nanos + elapsed_nanos;
    if total / (NANOS_PER_MILLI as int) > u32::MAX {
        (u32::MAX, 0)
    } else {
        ((total / (NANOS_PER_MILLI as int)) as u32, (total % (NANOS_PER_MILLI as int)) as u64)
    }
}

/// Splits the time that has passed into the whole milliseconds that the
/// timers count and the nanoseconds to carry over to the next step, so
/// that no time is lost between steps.
pub fn split_millis(carried_nanos: u64, elapsed_nanos: u64) -> (parts: (u32, u64))
    ensures
        parts == millis_and_rest(carried_nanos, elapsed_nanos),
        parts.1 < NANOS_PER_MILLI,
{
    let total: u128 = carried_nanos as u128 + elapsed_nanos as u128;
    let millis: u128 = total / 1_000_000;
    if millis > 0xffff_ffff {
        (0xffff_ffff, 0)
    } else {
        (millis as u32, (total % 1_000_000) as u64)
    }
}

impl ActionTimer {
    /// A timer with `duration_ms` milliseconds to run.
    pub fn new(duration_ms: u32) -> (t: ActionTimer)
        ensures
            t.remaining_ms == duration_ms,
    {
        ActionTimer { remaining_ms: duration_ms }
    }

    /// The timer after `delta_ms` more milliseconds.
    pub open spec fn after(self, delta_ms: u32) -> ActionTimer {
        ActionTimer {
            remaining_ms: if self.remaining_ms <= delta_ms {
                0
            } else {
                (self.remaining_ms - delta_ms) as u32
            },
        }
    }

    /// Whether the timer runs out within `delta_ms` milliseconds.
    pub open spec fn expires_within(self, delta_ms: u32) -> bool {
        self.remaining_ms <= delta_ms
    }

    /// Lets `delta_ms` milliseconds pass and says whether the time is up.
    pub fn tick(&mut self, delta_ms: u32) -> (expired: bool)
        ensures
            *final(self) == old(self).after(delta_ms),
            expired == old(self).expires_within(delta_ms),
    {
        if self.remaining_ms <= delta_ms {
            self.remaining_ms = 0;
            true
        } else {
            self.remaining_ms = self.remaining_ms - delta_ms;
            false
        }
    }
}

} // verus!
