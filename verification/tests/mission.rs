use warehouse_sim::grid::WarehouseGrid;
use warehouse_sim::highways::HighwayGraph;
use warehouse_sim::mission::{split_millis, ActionTimer, Mission, MissionPhase};
use warehouse_sim::navigation::{deadlock_detection_system, path_execution_system, simulation_tick_system};
use warehouse_sim::pbs::{pbs_planning_system, update_priorities_system};
use warehouse_sim::planner::PbsConfig;
use warehouse_sim::robot::{Robot, RobotState};
use warehouse_sim::spacetime::SpaceTimeTable;
use warehouse_sim::spawner::{
    advance_mission, is_occupied, mission_progression_system, sequential_spawn_system, SpawnQueue,
};
use warehouse_sim::types::{AgentId, GridPos};
use warehouse_sim::zones::WarehouseZones;

fn p(x: i32, y: i32) -> GridPos {
    GridPos::new(x, y)
}

fn zones(storage: Vec<GridPos>, cargo: Vec<GridPos>) -> WarehouseZones {
    WarehouseZones::from_cells(vec![p(0, 0), p(0, 1)], storage, cargo, Vec::new()).unwrap()
}

#[test]
fn mission_runs_through_its_phases() {
    let mut z = zones(vec![p(3, 0), p(3, 1)], vec![p(6, 0), p(6, 1)]);
    assert_eq!(z.reserve_storage(), Some(p(3, 0)));
    assert_eq!(z.reserve_cargo(), Some(p(6, 0)));
    let mut r = Robot::spawn(AgentId(1), p(0, 0), p(3, 0), p(6, 0));

    // Not there yet: nothing happens.
    advance_mission(&mut r, &mut z, 1000);
    assert_eq!(r.mission.phase, MissionPhase::GoingToStorage);
    assert_eq!(r.state, RobotState::Moving);
    assert_eq!(r.timer, None);

    // On the storage cell the pickup begins and takes four seconds.
    r.position = p(3, 0);
    advance_mission(&mut r, &mut z, 1000);
    assert_eq!(r.mission.phase, MissionPhase::PickingUp);
    assert_eq!(r.state, RobotState::Loading);
    assert_eq!(r.timer, Some(ActionTimer::new(4000)));
    assert!(!r.loaded);
    advance_mission(&mut r, &mut z, 3999);
    assert_eq!(r.mission.phase, MissionPhase::PickingUp);
    assert_eq!(r.timer, Some(ActionTimer::new(1)));
    assert!(z.is_storage_reserved(p(3, 0)));

    // The pickup is over: loaded, storage cell free, off to the cargo cell.
    advance_mission(&mut r, &mut z, 1);
    assert_eq!(r.mission.phase, MissionPhase::GoingToCargo);
    assert_eq!(r.state, RobotState::Moving);
    assert_eq!(r.destination, p(6, 0));
    assert_eq!(r.timer, None);
    assert!(r.loaded);
    assert!(!z.is_storage_reserved(p(3, 0)));
    assert!(z.is_cargo_reserved(p(6, 0)));

    advance_mission(&mut r, &mut z, 1000);
    assert_eq!(r.mission.phase, MissionPhase::GoingToCargo);

    // On the cargo cell the drop-off begins and takes three seconds.
    r.position = p(6, 0);
    advance_mission(&mut r, &mut z, 1000);
    assert_eq!(r.mission.phase, MissionPhase::DroppingOff);
    assert_eq!(r.state, RobotState::Unloading);
    assert_eq!(r.timer, Some(ActionTimer::new(3000)));
    assert!(r.loaded);
    advance_mission(&mut r, &mut z, 2000);
    assert_eq!(r.timer, Some(ActionTimer::new(1000)));

    // The drop-off is over: a new mission with the next cells in rotation.
    advance_mission(&mut r, &mut z, 1000);
    assert_eq!(r.mission, Mission::new(p(3, 1), p(6, 1)));
    assert_eq!(r.state, RobotState::Moving);
    assert_eq!(r.destination, p(3, 1));
    assert_eq!(r.timer, None);
    assert!(!r.loaded);
    assert!(z.is_storage_reserved(p(3, 1)));
    assert!(z.is_cargo_reserved(p(6, 1)));
    assert!(!z.is_storage_reserved(p(3, 0)));
    assert!(!z.is_cargo_reserved(p(6, 0)));
    assert_eq!(r.position, p(6, 0));
    assert_eq!(r.id, AgentId(1));
}

#[test]
fn picking_up_without_a_timer_stays_as_it_is() {
    let mut z = zones(vec![p(3, 0)], vec![p(6, 0)]);
    let mut r = Robot::spawn(AgentId(1), p(3, 0), p(3, 0), p(6, 0));
    r.mission.phase = MissionPhase::PickingUp;
    r.state = RobotState::Loading;
    advance_mission(&mut r, &mut z, 10_000);
    assert_eq!(r.mission.phase, MissionPhase::PickingUp);
    assert_eq!(r.state, RobotState::Loading);
    assert!(!r.loaded);
}

#[test]
fn loaded_agent_without_timer_is_left_alone() {
    // An agent that idles in its drop-off with a load still on it is not
    // one that waits for a new mission.
    let mut z = zones(vec![p(3, 0)], vec![p(6, 0), p(6, 1)]);
    let mut r = Robot::spawn(AgentId(1), p(6, 0), p(6, 0), p(6, 0));
    r.mission.phase = MissionPhase::DroppingOff;
    r.state = RobotState::Idle;
    r.loaded = true;
    advance_mission(&mut r, &mut z, 10_000);
    assert_eq!(r.mission.phase, MissionPhase::DroppingOff);
    assert_eq!(r.state, RobotState::Idle);
    assert!(r.loaded);
    assert_eq!(r.destination, p(6, 0));
    assert!(!z.is_storage_reserved(p(3, 0)));
    assert!(!z.is_cargo_reserved(p(6, 0)));
    assert_eq!(z.reserve_storage(), Some(p(3, 0)));

    // Without the load it is, and sets out again.
    let mut z = zones(vec![p(3, 0)], vec![p(6, 0), p(6, 1)]);
    r.loaded = false;
    advance_mission(&mut r, &mut z, 0);
    assert_eq!(r.mission, Mission::new(p(3, 0), p(6, 0)));
    assert_eq!(r.state, RobotState::Moving);
    assert!(!r.loaded);
}

#[test]
fn elapsed_time_is_split_without_loss() {
    assert_eq!(split_millis(0, 16_666_667), (16, 666_667));
    assert_eq!(split_millis(666_667, 16_666_667), (17, 333_334));
    assert_eq!(split_millis(999_999, 1), (1, 0));
    assert_eq!(split_millis(0, 999_999), (0, 999_999));
    assert_eq!(split_millis(0, 0), (0, 0));
    assert_eq!(split_millis(u64::MAX, u64::MAX), (u32::MAX, 0));
    assert_eq!(split_millis(0, 4_294_967_295_999_999), (u32::MAX, 999_999));
    assert_eq!(split_millis(0, 4_294_967_296_000_000), (u32::MAX, 0));
    // Sixty steps of a sixtieth of a second make a second.
    let mut carried = 0;
    let mut total: u64 = 0;
    for _ in 0..240 {
        let (ms, rest) = split_millis(carried, 16_666_667);
        carried = rest;
        total += ms as u64;
    }
    assert_eq!(total, 4000);
}

#[test]
fn partial_acquisition_is_rolled_back() {
    // A storage cell is free, but no cargo cell.
    let mut z = zones(vec![p(3, 0), p(3, 1)], vec![p(6, 0), p(6, 1)]);
    assert_eq!(z.reserve_cargo(), Some(p(6, 0)));
    assert_eq!(z.reserve_cargo(), Some(p(6, 1)));
    let mut r = Robot::spawn(AgentId(1), p(5, 5), p(3, 0), p(6, 0));
    r.mission.phase = MissionPhase::DroppingOff;
    r.mission.cargo_target = p(9, 9);
    r.state = RobotState::Unloading;
    r.loaded = true;
    r.timer = Some(ActionTimer::new(10));
    advance_mission(&mut r, &mut z, 10);
    assert_eq!(r.state, RobotState::Idle);
    assert_eq!(r.mission.phase, MissionPhase::DroppingOff);
    assert!(!r.loaded);
    assert_eq!(r.timer, None);
    assert!(!z.is_storage_reserved(p(3, 0)));
    assert!(!z.is_storage_reserved(p(3, 1)));
    assert!(z.is_cargo_reserved(p(6, 0)));
    assert!(z.is_cargo_reserved(p(6, 1)));
    // The storage cursor has moved on all the same.
    assert_eq!(z.reserve_storage(), Some(p(3, 1)));

    // A cargo cell is free, but no storage cell.
    let mut z = zones(vec![p(3, 0)], vec![p(6, 0), p(6, 1)]);
    assert_eq!(z.reserve_storage(), Some(p(3, 0)));
    let mut r = Robot::spawn(AgentId(1), p(5, 5), p(3, 0), p(6, 0));
    r.mission.phase = MissionPhase::DroppingOff;
    r.state = RobotState::Idle;
    advance_mission(&mut r, &mut z, 10);
    assert_eq!(r.state, RobotState::Idle);
    assert!(!z.is_cargo_reserved(p(6, 0)));
    assert!(!z.is_cargo_reserved(p(6, 1)));
    assert!(z.is_storage_reserved(p(3, 0)));
    assert_eq!(z.reserve_cargo(), Some(p(6, 1)));
}

#[test]
fn storage_exhaustion() {
    let mut z = zones(vec![p(3, 0), p(3, 1)], vec![p(6, 0), p(6, 1), p(6, 2), p(6, 3)]);
    assert_eq!(z.reserve_storage(), Some(p(3, 0)));
    assert_eq!(z.reserve_storage(), Some(p(3, 1)));
    assert_eq!(z.reserve_cargo(), Some(p(6, 0)));
    assert_eq!(z.reserve_cargo(), Some(p(6, 1)));
    assert_eq!(z.reserve_cargo(), Some(p(6, 2)));

    let mut first = Robot::spawn(AgentId(1), p(3, 0), p(3, 0), p(6, 0));
    first.mission.phase = MissionPhase::PickingUp;
    first.state = RobotState::Loading;
    first.timer = Some(ActionTimer::new(100));
    let second = Robot::spawn(AgentId(2), p(1, 1), p(3, 1), p(6, 1));
    let mut third = Robot::spawn(AgentId(3), p(6, 2), p(6, 2), p(6, 2));
    third.mission = Mission { phase: MissionPhase::DroppingOff, storage_target: p(3, 0), cargo_target: p(6, 2) };
    third.state = RobotState::Unloading;
    third.loaded = true;
    third.timer = Some(ActionTimer::new(50));
    let mut fleet = vec![first, second, third];

    // The third agent finishes its drop-off and finds no storage cell.
    mission_progression_system(&mut fleet, &mut z, 60);
    assert_eq!(fleet[0].timer, Some(ActionTimer::new(40)));
    assert_eq!(fleet[2].state, RobotState::Idle);
    assert_eq!(fleet[2].mission.phase, MissionPhase::DroppingOff);
    assert!(!fleet[2].loaded);
    assert_eq!(fleet[2].timer, None);
    assert!(!z.is_cargo_reserved(p(6, 2)));
    assert!(!z.is_cargo_reserved(p(6, 3)));

    // It stays idle as long as both storage cells are taken.
    mission_progression_system(&mut fleet, &mut z, 10);
    assert_eq!(fleet[2].state, RobotState::Idle);
    assert_eq!(fleet[0].timer, Some(ActionTimer::new(30)));

    // The first agent finishes its pickup and frees its storage cell; the
    // third agent takes it on the same tick.
    mission_progression_system(&mut fleet, &mut z, 30);
    assert_eq!(fleet[0].mission.phase, MissionPhase::GoingToCargo);
    assert!(fleet[0].loaded);
    assert_eq!(fleet[2].state, RobotState::Moving);
    assert_eq!(fleet[2].mission.phase, MissionPhase::GoingToStorage);
    assert_eq!(fleet[2].mission.storage_target, p(3, 0));
    assert_eq!(fleet[2].destination, p(3, 0));
    assert!(z.is_storage_reserved(p(3, 0)));
    assert!(z.is_cargo_reserved(fleet[2].mission.cargo_target));
    assert_eq!(fleet[1].mission.phase, MissionPhase::GoingToStorage);
    assert_eq!(fleet[1].mission.storage_target, p(3, 1));
}

#[test]
fn spawn_queue_defaults() {
    let q = SpawnQueue::default();
    assert_eq!(q.total, 150);
    assert_eq!(q.spawned_count, 0);
    assert_eq!(q.cooldown_ticks, 20);
    assert_eq!(q.last_spawn_tick, 0);
    assert!(!q.is_complete());
    assert!(!q.is_due(19));
    assert!(q.is_due(20));
    assert!(!SpawnQueue { total: 3, spawned_count: 3, cooldown_ticks: 1, last_spawn_tick: 0 }.is_due(50));
    assert!(!SpawnQueue { total: 3, spawned_count: 0, cooldown_ticks: u64::MAX, last_spawn_tick: 1 }.is_due(u64::MAX));
    assert!(SpawnQueue { total: 3, spawned_count: 0, cooldown_ticks: u64::MAX, last_spawn_tick: 0 }.is_due(u64::MAX));
    assert!(SpawnQueue { total: 3, spawned_count: 3, cooldown_ticks: 1, last_spawn_tick: 0 }.is_complete());
    assert!(SpawnQueue { total: 0, spawned_count: 0, cooldown_ticks: 1, last_spawn_tick: 0 }.is_complete());
}

#[test]
fn spawner_waits_for_its_cooldown() {
    let mut z = zones(vec![p(3, 0), p(3, 1)], vec![p(6, 0), p(6, 1)]);
    let mut q = SpawnQueue { total: 2, spawned_count: 0, cooldown_ticks: 20, last_spawn_tick: 0 };
    let mut fleet: Vec<Robot> = Vec::new();
    assert!(!sequential_spawn_system(&mut q, &mut z, &mut fleet, 19, AgentId(1)));
    assert!(fleet.is_empty());
    assert_eq!(q, SpawnQueue { total: 2, spawned_count: 0, cooldown_ticks: 20, last_spawn_tick: 0 });
    // When it does not run, the round of spawn points stays where it is.
    assert!(sequential_spawn_system(&mut q, &mut z, &mut fleet, 20, AgentId(1)));
    assert_eq!(fleet.len(), 1);
    assert_eq!(fleet[0].id, AgentId(1));
    assert_eq!(fleet[0].position, p(0, 0));
    assert_eq!(fleet[0].destination, p(3, 0));
    assert_eq!(fleet[0].mission, Mission::new(p(3, 0), p(6, 0)));
    assert_eq!(fleet[0].state, RobotState::Moving);
    assert!(!fleet[0].loaded);
    assert_eq!(q, SpawnQueue { total: 2, spawned_count: 1, cooldown_ticks: 20, last_spawn_tick: 20 });
    assert!(z.is_storage_reserved(p(3, 0)));
    assert!(z.is_cargo_reserved(p(6, 0)));
    assert!(!sequential_spawn_system(&mut q, &mut z, &mut fleet, 39, AgentId(2)));
    assert!(sequential_spawn_system(&mut q, &mut z, &mut fleet, 40, AgentId(2)));
    assert_eq!(fleet[1].position, p(0, 1));
    assert_eq!(fleet[1].mission, Mission::new(p(3, 1), p(6, 1)));
    assert!(q.is_complete());
    assert!(!sequential_spawn_system(&mut q, &mut z, &mut fleet, 100, AgentId(3)));
    assert_eq!(fleet.len(), 2);
}

#[test]
fn spawner_skips_an_occupied_spawn_point() {
    let mut z = zones(vec![p(3, 0), p(3, 1)], vec![p(6, 0), p(6, 1)]);
    let mut q = SpawnQueue { total: 5, spawned_count: 0, cooldown_ticks: 2, last_spawn_tick: 0 };
    let mut fleet = vec![Robot::spawn(AgentId(9), p(0, 0), p(8, 8), p(9, 9))];
    assert!(is_occupied(&fleet, p(0, 0)));
    assert!(!is_occupied(&fleet, p(0, 1)));
    assert!(!sequential_spawn_system(&mut q, &mut z, &mut fleet, 2, AgentId(1)));
    assert_eq!(fleet.len(), 1);
    assert_eq!(q.spawned_count, 0);
    assert!(!z.is_storage_reserved(p(3, 0)));
    assert!(!z.is_cargo_reserved(p(6, 0)));
    // The round of spawn points has moved on: the next try uses the second.
    assert!(sequential_spawn_system(&mut q, &mut z, &mut fleet, 2, AgentId(1)));
    assert_eq!(fleet[1].position, p(0, 1));
}

#[test]
fn spawner_rolls_back_the_storage_cell_when_no_cargo_cell_is_free() {
    let mut z = zones(vec![p(3, 0), p(3, 1)], vec![p(6, 0)]);
    assert_eq!(z.reserve_cargo(), Some(p(6, 0)));
    let mut q = SpawnQueue { total: 5, spawned_count: 0, cooldown_ticks: 0, last_spawn_tick: 0 };
    let mut fleet: Vec<Robot> = Vec::new();
    assert!(!sequential_spawn_system(&mut q, &mut z, &mut fleet, 0, AgentId(1)));
    assert!(fleet.is_empty());
    assert_eq!(q.spawned_count, 0);
    assert!(!z.is_storage_reserved(p(3, 0)));
    assert!(!z.is_storage_reserved(p(3, 1)));
    z.release_cargo(p(6, 0));
    assert!(sequential_spawn_system(&mut q, &mut z, &mut fleet, 0, AgentId(1)));
    // The storage cursor moved on during the failed attempt.
    assert_eq!(fleet[0].mission, Mission::new(p(3, 1), p(6, 0)));
    assert_eq!(fleet[0].position, p(0, 1));
}

#[test]
fn spawner_without_storage_leaves_the_cargo_pool_alone() {
    let mut z = zones(vec![p(3, 0)], vec![p(6, 0), p(6, 1)]);
    assert_eq!(z.reserve_storage(), Some(p(3, 0)));
    let mut q = SpawnQueue { total: 5, spawned_count: 0, cooldown_ticks: 0, last_spawn_tick: 0 };
    let mut fleet: Vec<Robot> = Vec::new();
    assert!(!sequential_spawn_system(&mut q, &mut z, &mut fleet, 7, AgentId(1)));
    assert!(!z.is_cargo_reserved(p(6, 0)));
    assert_eq!(z.reserve_cargo(), Some(p(6, 0)));
}

#[test]
fn spawner_without_spawn_points_admits_nobody() {
    let mut z = WarehouseZones::from_cells(Vec::new(), vec![p(3, 0)], vec![p(6, 0)], Vec::new()).unwrap();
    let mut q = SpawnQueue { total: 5, spawned_count: 0, cooldown_ticks: 0, last_spawn_tick: 0 };
    let mut fleet: Vec<Robot> = Vec::new();
    assert!(!sequential_spawn_system(&mut q, &mut z, &mut fleet, 7, AgentId(1)));
    assert!(fleet.is_empty());
    assert!(!z.is_storage_reserved(p(3, 0)));
}

#[test]
fn mission_loop() {
    let grid = WarehouseGrid::new(8, 3);
    let highways = HighwayGraph::new(8, 3);
    let config = PbsConfig::default();
    let mut table = SpaceTimeTable::new();
    let mut z = WarehouseZones::from_cells(
        vec![p(0, 1)],
        vec![p(3, 0), p(3, 2)],
        vec![p(7, 0), p(7, 2)],
        Vec::new(),
    )
    .unwrap();
    let mut queue = SpawnQueue { total: 1, spawned_count: 0, cooldown_ticks: 2, last_spawn_tick: 0 };
    let mut fleet: Vec<Robot> = Vec::new();
    let mut cycles = 0;
    let mut pickups = 0;
    for _ in 0..200 {
        simulation_tick_system(&mut table);
        sequential_spawn_system(&mut queue, &mut z, &mut fleet, table.current_tick(), AgentId(1));
        let before = fleet.first().map(|r| r.mission.phase);
        mission_progression_system(&mut fleet, &mut z, 1000);
        update_priorities_system(&mut fleet);
        pbs_planning_system(&mut fleet, &grid, &highways, &mut table, &config);
        path_execution_system(&mut fleet, &table);
        deadlock_detection_system(&fleet, &mut table);
        if let Some(r) = fleet.first() {
            let after = r.mission.phase;
            if before == Some(MissionPhase::DroppingOff) && after == MissionPhase::GoingToStorage {
                cycles += 1;
            }
            if before == Some(MissionPhase::PickingUp) && after == MissionPhase::GoingToCargo {
                pickups += 1;
            }
            // The agent is loaded exactly while it carries a load to the
            // cargo cell or drops it there.
            assert_eq!(r.loaded, matches!(after, MissionPhase::GoingToCargo | MissionPhase::DroppingOff));
            // The reserved cells are those of the agent's mission and no
            // others.
            let to_storage = matches!(after, MissionPhase::GoingToStorage | MissionPhase::PickingUp);
            for s in [p(3, 0), p(3, 2)] {
                assert_eq!(z.is_storage_reserved(s), to_storage && s == r.mission.storage_target);
            }
            for c in [p(7, 0), p(7, 2)] {
                assert_eq!(z.is_cargo_reserved(c), c == r.mission.cargo_target);
            }
            assert!(grid.is_passable(r.position));
        }
    }
    assert_eq!(fleet.len(), 1);
    assert!(queue.is_complete());
    assert!(cycles >= 3, "only {} cycles", cycles);
    assert!(pickups >= cycles);
}
