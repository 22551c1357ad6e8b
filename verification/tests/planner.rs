use warehouse_sim::grid::{CellType, WarehouseGrid};
use warehouse_sim::highways::HighwayGraph;
use warehouse_sim::open_list::OpenList;
use warehouse_sim::planner::{PbsConfig, PbsPlanner, StaticObstacles};
use warehouse_sim::spacetime::SpaceTimeTable;
use warehouse_sim::types::{AgentId, GridPos};

const A: AgentId = AgentId(1);
const B: AgentId = AgentId(2);

fn p(x: i32, y: i32) -> GridPos {
    GridPos::new(x, y)
}

fn check_shape(grid: &WarehouseGrid, path: &[(GridPos, u64)], start: GridPos, start_tick: u64) {
    assert!(!path.is_empty());
    assert_eq!(path[0], (start, start_tick));
    for w in path.windows(2) {
        assert_eq!(w[1].1, w[0].1 + 1);
        let d = w[0].0.distance(&w[1].0);
        assert!(d <= 1);
        if d == 1 {
            assert!(grid.is_passable(w[1].0));
        }
    }
}

#[test]
fn default_config() {
    let c = PbsConfig::default();
    assert_eq!(c.horizon, 100);
    assert_eq!(c.replan_interval, 3);
    assert_eq!(c.heuristic_weight_tenths, 12);
}

#[test]
fn open_list_hands_out_cheapest_first_then_oldest() {
    let mut open = OpenList::new();
    assert!(open.pop().is_none());
    open.push(p(0, 0), 0, 0, 30, None);
    open.push(p(1, 0), 1, 10, 20, Some((p(0, 0), 0)));
    open.push(p(2, 0), 1, 10, 20, None);
    open.push(p(3, 0), 1, 10, 10, None);
    open.push(p(4, 0), 1, 10, 20, None);
    open.push(p(5, 0), 1, 10, 40, None);
    let order: Vec<(i32, u128, u64)> = std::iter::from_fn(|| open.pop()).map(|n| (n.pos.x, n.f_cost, n.seq)).collect();
    assert_eq!(order, vec![(3, 10, 3), (1, 20, 1), (2, 20, 2), (4, 20, 4), (0, 30, 0), (5, 40, 5)]);
    assert!(open.pop().is_none());
}

#[test]
fn open_list_keeps_order_over_many_nodes() {
    let mut open = OpenList::new();
    let mut x: u64 = 12345;
    for i in 0..500 {
        x = x.wrapping_mul(6364136223846793005).wrapping_add(1442695040888963407);
        open.push(p(i, 0), 0, 0, ((x >> 33) % 50) as u128, None);
    }
    let mut last: (u128, u64) = (0, 0);
    let mut count = 0;
    while let Some(n) = open.pop() {
        assert!((n.f_cost, n.seq) >= last);
        last = (n.f_cost, n.seq);
        count += 1;
    }
    assert_eq!(count, 500);
}

#[test]
fn static_obstacles_block_everybody_but_their_agent() {
    let mut o = StaticObstacles::new();
    assert!(!o.is_blocked(p(1, 1), None));
    o.insert(p(1, 1), A);
    assert!(o.is_blocked(p(1, 1), None));
    assert!(o.is_blocked(p(1, 1), Some(B)));
    assert!(!o.is_blocked(p(1, 1), Some(A)));
    assert!(!o.is_blocked(p(1, 2), Some(B)));
    o.insert(p(1, 1), B);
    assert!(o.is_blocked(p(1, 1), Some(A)));
    assert!(!o.is_blocked(p(1, 1), Some(B)));
    assert!(!StaticObstacles::default().is_blocked(p(1, 1), None));
}

#[test]
fn start_on_goal_gives_the_start_alone() {
    let grid = WarehouseGrid::new(10, 10);
    let highways = HighwayGraph::new(10, 10);
    let table = SpaceTimeTable::new();
    let obstacles = StaticObstacles::new();
    let config = PbsConfig::default();
    let planner = PbsPlanner::new(&grid, &highways, &table, &obstacles, &config);
    assert_eq!(planner.plan_path(p(3, 4), p(3, 4), 17, A), Some(vec![(p(3, 4), 17)]));
}

#[test]
fn start_on_goal_wins_over_a_blocked_goal() {
    let grid = WarehouseGrid::new(10, 10);
    let highways = HighwayGraph::new(10, 10);
    let table = SpaceTimeTable::new();
    let mut obstacles = StaticObstacles::new();
    obstacles.insert(p(3, 4), B);
    let config = PbsConfig::default();
    let planner = PbsPlanner::new(&grid, &highways, &table, &obstacles, &config);
    assert_eq!(planner.plan_path(p(3, 4), p(3, 4), 0, A), Some(vec![(p(3, 4), 0)]));
}

#[test]
fn single_agent_crosses_an_empty_grid() {
    let grid = WarehouseGrid::new(10, 10);
    let highways = HighwayGraph::new(10, 10);
    let table = SpaceTimeTable::new();
    let obstacles = StaticObstacles::new();
    let config = PbsConfig::default();
    let planner = PbsPlanner::new(&grid, &highways, &table, &obstacles, &config);
    let path = planner.plan_path(p(1, 1), p(8, 8), 0, A).unwrap();
    assert_eq!(path.len(), 15);
    assert_eq!(path[14], (p(8, 8), 14));
    check_shape(&grid, &path, p(1, 1), 0);
    for w in path.windows(2) {
        assert_eq!(w[0].0.distance(&w[1].0), 1);
    }
    for (i, (c, t)) in path.iter().enumerate() {
        assert_eq!(*t, i as u64);
        assert!(grid.is_passable(*c));
    }
}

#[test]
fn goal_under_a_standing_agent_cannot_be_planned() {
    let grid = WarehouseGrid::new(10, 10);
    let highways = HighwayGraph::new(10, 10);
    let table = SpaceTimeTable::new();
    let mut obstacles = StaticObstacles::new();
    obstacles.insert(p(8, 8), B);
    let config = PbsConfig::default();
    let planner = PbsPlanner::new(&grid, &highways, &table, &obstacles, &config);
    assert_eq!(planner.plan_path(p(1, 1), p(8, 8), 0, A), None);
    assert!(planner.plan_path(p(1, 1), p(8, 8), 0, B).is_some());
}

#[test]
fn planner_goes_round_walls_and_standing_agents() {
    let mut grid = WarehouseGrid::new(5, 3);
    grid.set(p(2, 1), CellType::Rack);
    let highways = HighwayGraph::new(5, 3);
    let table = SpaceTimeTable::new();
    let mut obstacles = StaticObstacles::new();
    obstacles.insert(p(2, 2), B);
    let config = PbsConfig::default();
    let planner = PbsPlanner::new(&grid, &highways, &table, &obstacles, &config);
    let path = planner.plan_path(p(0, 1), p(4, 1), 5, A).unwrap();
    check_shape(&grid, &path, p(0, 1), 5);
    assert_eq!(path.len(), 7);
    assert_eq!(*path.last().unwrap(), (p(4, 1), 11));
    for (c, _) in &path {
        assert_ne!(*c, p(2, 1));
        assert_ne!(*c, p(2, 2));
    }
}

#[test]
fn planner_stops_nearer_to_a_goal_it_cannot_reach() {
    let mut grid = WarehouseGrid::new(5, 3);
    grid.set(p(2, 0), CellType::Blocked);
    grid.set(p(2, 1), CellType::Rack);
    let highways = HighwayGraph::new(5, 3);
    let table = SpaceTimeTable::new();
    let mut obstacles = StaticObstacles::new();
    obstacles.insert(p(3, 2), B);
    let config = PbsConfig::default();
    let planner = PbsPlanner::new(&grid, &highways, &table, &obstacles, &config);
    let path = planner.plan_path(p(0, 1), p(4, 2), 5, A).unwrap();
    check_shape(&grid, &path, p(0, 1), 5);
    assert_eq!(path.last().unwrap().0, p(2, 2));
    assert!(path.last().unwrap().0.distance(&p(4, 2)) < p(0, 1).distance(&p(4, 2)));
    for (c, _) in &path {
        assert_ne!(*c, p(2, 0));
        assert_ne!(*c, p(2, 1));
        assert_ne!(*c, p(3, 2));
    }
}

#[test]
fn planner_waits_for_a_reserved_cell() {
    let grid = WarehouseGrid::new(3, 1);
    let highways = HighwayGraph::new(3, 1);
    let mut table = SpaceTimeTable::new();
    // Somebody else holds the middle cell during the first three ticks.
    for t in 0..3 {
        assert!(table.reserve(p(1, 0), t, B));
    }
    let obstacles = StaticObstacles::new();
    let config = PbsConfig::default();
    let planner = PbsPlanner::new(&grid, &highways, &table, &obstacles, &config);
    let path = planner.plan_path(p(0, 0), p(2, 0), 0, A).unwrap();
    check_shape(&grid, &path, p(0, 0), 0);
    assert_eq!(
        path,
        vec![(p(0, 0), 0), (p(0, 0), 1), (p(0, 0), 2), (p(0, 0), 3), (p(1, 0), 4), (p(2, 0), 5)]
    );
    for (c, t) in &path {
        assert!(table.is_free(*c, *t, Some(A)));
    }
}

#[test]
fn planner_gives_up_beyond_the_horizon() {
    let grid = WarehouseGrid::new(30, 1);
    let highways = HighwayGraph::new(30, 1);
    let table = SpaceTimeTable::new();
    let obstacles = StaticObstacles::new();
    let config = PbsConfig { horizon: 5, replan_interval: 3, heuristic_weight_tenths: 12 };
    let planner = PbsPlanner::new(&grid, &highways, &table, &obstacles, &config);
    let path = planner.plan_path(p(0, 0), p(20, 0), 10, A).unwrap();
    check_shape(&grid, &path, p(0, 0), 10);
    assert_eq!(path.len(), 6);
    assert_eq!(*path.last().unwrap(), (p(5, 0), 15));
}

#[test]
fn walled_in_agent_has_no_plan() {
    let mut grid = WarehouseGrid::new(3, 3);
    for c in [p(0, 1), p(1, 0), p(2, 1), p(1, 2)] {
        grid.set(c, CellType::Blocked);
    }
    let highways = HighwayGraph::new(3, 3);
    let table = SpaceTimeTable::new();
    let obstacles = StaticObstacles::new();
    let config = PbsConfig { horizon: 4, replan_interval: 3, heuristic_weight_tenths: 12 };
    let planner = PbsPlanner::new(&grid, &highways, &table, &obstacles, &config);
    assert_eq!(planner.plan_path(p(1, 1), p(2, 2), 0, A), None);
}

#[test]
fn zero_horizon_never_leaves_the_start() {
    let grid = WarehouseGrid::new(3, 3);
    let highways = HighwayGraph::new(3, 3);
    let table = SpaceTimeTable::new();
    let obstacles = StaticObstacles::new();
    let config = PbsConfig { horizon: 0, replan_interval: 3, heuristic_weight_tenths: 12 };
    let planner = PbsPlanner::new(&grid, &highways, &table, &obstacles, &config);
    assert_eq!(planner.plan_path(p(0, 0), p(2, 2), 0, A), None);
    assert_eq!(planner.plan_path(p(0, 0), p(0, 0), 0, A), Some(vec![(p(0, 0), 0)]));
}
