//! Coordination core of a warehouse robot fleet: a space-time reservation
//! table, a time-expanded single-agent planner, a prioritized batch
//! replanner and the mission state machine that keeps the fleet busy.

pub mod constants;
pub mod types;
pub mod fx;
pub mod spacetime;
pub mod spawner;
pub mod grid;
pub mod highways;
pub mod laws;
pub mod mission;
pub mod navigation;
pub mod open_list;
pub mod pbs;
pub mod planner;
pub mod robot;
pub mod snapshot;
pub mod zones;
