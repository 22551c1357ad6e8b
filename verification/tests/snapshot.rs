use warehouse_sim::mission::{ActionTimer, MissionPhase};
use warehouse_sim::robot::{PlannedPath, Robot, RobotState};
use warehouse_sim::snapshot::{agent_snapshot, fleet_snapshots};
use warehouse_sim::types::{AgentId, GridPos};

fn p(x: i32, y: i32) -> GridPos {
    GridPos::new(x, y)
}

fn sample_fleet() -> Vec<Robot> {
    let mut a = Robot::spawn(AgentId(10), p(1, 1), p(5, 5), p(9, 9));
    a.path = PlannedPath { waypoints: vec![(p(1, 1), 0), (p(2, 1), 1), (p(3, 1), 2)], current_index: 1 };
    a.priority = 20;
    let mut b = Robot::spawn(AgentId(20), p(5, 6), p(5, 6), p(9, 8));
    b.mission.phase = MissionPhase::PickingUp;
    b.state = RobotState::Loading;
    b.timer = Some(ActionTimer::new(2500));
    b.energy_permille = 150;
    b.priority = 0;
    vec![a, b]
}

#[test]
fn snapshot_shows_the_agent() {
    let fleet = sample_fleet();
    let s = agent_snapshot(&fleet, AgentId(10)).unwrap();
    assert_eq!(s.position, p(1, 1));
    assert_eq!(s.destination, p(5, 5));
    assert_eq!(s.state, RobotState::Moving);
    assert_eq!(s.phase, MissionPhase::GoingToStorage);
    assert!(!s.loaded);
    assert_eq!(s.energy_permille, 1000);
    assert_eq!(s.priority, 20);
    assert_eq!(s.remaining, vec![(p(2, 1), 1), (p(3, 1), 2)]);
    assert_eq!(s.action_timer, None);

    let t = agent_snapshot(&fleet, AgentId(20)).unwrap();
    assert_eq!(t.position, p(5, 6));
    assert_eq!(t.state, RobotState::Loading);
    assert_eq!(t.phase, MissionPhase::PickingUp);
    assert_eq!(t.energy_permille, 150);
    assert!(t.remaining.is_empty());
    assert_eq!(t.action_timer, Some(ActionTimer::new(2500)));
}

#[test]
fn snapshot_of_a_stranger_is_nothing() {
    let fleet = sample_fleet();
    assert!(agent_snapshot(&fleet, AgentId(30)).is_none());
    assert!(agent_snapshot(&Vec::new(), AgentId(10)).is_none());
}

#[test]
fn fleet_snapshots_follow_the_fleet() {
    let fleet = sample_fleet();
    let all = fleet_snapshots(&fleet);
    assert_eq!(all.len(), 2);
    assert_eq!(all[0].0, AgentId(10));
    assert_eq!(all[1].0, AgentId(20));
    assert_eq!(all[0].1.remaining.len(), 2);
    assert_eq!(all[1].1.phase, MissionPhase::PickingUp);
    assert_eq!(fleet[0].snapshot().position, all[0].1.position);
    assert!(fleet_snapshots(&Vec::new()).is_empty());
}
