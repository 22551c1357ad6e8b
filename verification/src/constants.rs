//! The dimensions and timings of the default warehouse.

use vstd::prelude::*;

verus! {

/// Columns of the default grid.
pub const GRID_WIDTH: u32 = 80;

/// Rows of the default grid.
pub const GRID_HEIGHT: u32 = 60;

/// Width of the spawn zone along the left edge.
pub const SPAWN_ZONE_WIDTH: u32 = 8;

/// Width of the cargo zone along the right edge.
pub const CARGO_ZONE_WIDTH: u32 = 8;

/// Length of a rack along the y axis.
pub const RACK_LENGTH: u32 = 12;

/// Cells between two racks that stand side by side.
pub const RACK_SPACING: u32 = 3;

/// Width of the aisle between two rows of racks.
pub const AISLE_WIDTH: u32 = 2;

/// Agents that the spawner admits in all.
pub const ROBOT_COUNT: u32 = 150;

/// Duration of a pickup, in milliseconds.
pub const PICKUP_DURATION_MS: u32 = 4000;

/// Duration of a drop-off, in milliseconds.
pub const DROPOFF_DURATION_MS: u32 = 3000;

/// How many ticks ahead the planner looks.
pub const PBS_HORIZON_TICKS: u64 = 100;

/// Ticks between two replanning cycles.
pub const PBS_REPLAN_INTERVAL: u64 = 3;

} // verus!
