use warehouse_sim::grid::{CellType, WarehouseGrid};
use warehouse_sim::highways::{HighwayGraph, ZoneType};
use warehouse_sim::types::{Direction, GridPos};
use warehouse_sim::zones::Rack;

#[test]
fn manhattan_distance_adds_both_axes() {
    let a = GridPos::new(1, 1);
    let b = GridPos::new(8, 8);
    assert_eq!(a.manhattan_distance(&b), 14);
    assert_eq!(b.manhattan_distance(&a), 14);
    assert_eq!(a.manhattan_distance(&a), 0);
    assert_eq!(GridPos::new(-3, 4).manhattan_distance(&GridPos::new(2, -1)), 10);
}

#[test]
fn distance_covers_the_whole_coordinate_range() {
    let low = GridPos::new(i32::MIN, i32::MIN);
    let high = GridPos::new(i32::MAX, i32::MAX);
    assert_eq!(low.distance(&high), 2 * (u32::MAX as u64));
    assert_eq!(GridPos::new(0, 0).distance(&GridPos::new(3, -4)), 7);
}

#[test]
fn neighbors_lie_one_step_away() {
    let p = GridPos::new(5, 5);
    assert_eq!(p.neighbor(Direction::North), GridPos::new(5, 6));
    assert_eq!(p.neighbor(Direction::South), GridPos::new(5, 4));
    assert_eq!(p.neighbor(Direction::East), GridPos::new(6, 5));
    assert_eq!(p.neighbor(Direction::West), GridPos::new(4, 5));
}

#[test]
fn checked_neighbor_stops_at_the_end_of_the_range() {
    let edge = GridPos::new(i32::MAX, i32::MIN);
    assert_eq!(edge.checked_neighbor(Direction::East), None);
    assert_eq!(edge.checked_neighbor(Direction::South), None);
    assert_eq!(edge.checked_neighbor(Direction::West), Some(GridPos::new(i32::MAX - 1, i32::MIN)));
    assert_eq!(edge.checked_neighbor(Direction::North), Some(GridPos::new(i32::MAX, i32::MIN + 1)));
}

#[test]
fn offsets_and_opposites() {
    assert_eq!(Direction::North.to_offset(), (0, 1));
    assert_eq!(Direction::South.to_offset(), (0, -1));
    assert_eq!(Direction::East.to_offset(), (1, 0));
    assert_eq!(Direction::West.to_offset(), (-1, 0));
    for d in Direction::CARDINALS {
        let (dx, dy) = d.to_offset();
        let (ox, oy) = d.opposite().to_offset();
        assert_eq!((dx + ox, dy + oy), (0, 0));
        assert_eq!(d.opposite().opposite(), d);
    }
    assert_eq!(
        Direction::CARDINALS,
        [Direction::North, Direction::East, Direction::South, Direction::West]
    );
}

#[test]
fn position_codes_differ() {
    let a = GridPos::new(0, 1).encode();
    let b = GridPos::new(1, 0).encode();
    let c = GridPos::new(-1, -1).encode();
    assert_ne!(a, b);
    assert_ne!(a, c);
    assert_eq!(GridPos::new(i32::MIN, i32::MIN).encode(), 0);
    assert_eq!(GridPos::new(i32::MAX, i32::MAX).encode(), u64::MAX);
    assert_eq!(GridPos::new(0, 0).encode(), 0x8000_0000_8000_0000);
}

#[test]
fn new_grid_is_all_floor() {
    let g = WarehouseGrid::new(4, 3);
    assert_eq!(g.width(), 4);
    assert_eq!(g.height(), 3);
    for x in 0..4 {
        for y in 0..3 {
            assert_eq!(g.get(GridPos::new(x, y)), Some(CellType::Floor));
            assert!(g.is_passable(GridPos::new(x, y)));
        }
    }
}

#[test]
fn reads_outside_the_grid_are_empty() {
    let g = WarehouseGrid::new(4, 3);
    assert_eq!(g.get(GridPos::new(-1, 0)), None);
    assert_eq!(g.get(GridPos::new(0, -1)), None);
    assert_eq!(g.get(GridPos::new(4, 0)), None);
    assert_eq!(g.get(GridPos::new(0, 3)), None);
    assert!(!g.is_passable(GridPos::new(4, 0)));
    assert!(!g.is_passable(GridPos::new(-1, -1)));
}

#[test]
fn writes_change_one_cell_and_ignore_the_outside() {
    let mut g = WarehouseGrid::new(4, 3);
    g.set(GridPos::new(1, 2), CellType::Blocked);
    g.set(GridPos::new(9, 9), CellType::Rack);
    g.set(GridPos::new(-1, 0), CellType::Rack);
    for x in 0..4 {
        for y in 0..3 {
            let expected = if (x, y) == (1, 2) { CellType::Blocked } else { CellType::Floor };
            assert_eq!(g.get(GridPos::new(x, y)), Some(expected));
        }
    }
    assert!(!g.is_passable(GridPos::new(1, 2)));
    g.set(GridPos::new(1, 2), CellType::Rack);
    assert_eq!(g.get(GridPos::new(1, 2)), Some(CellType::Rack));
}

#[test]
fn only_floor_is_passable() {
    assert!(CellType::Floor.is_passable());
    assert!(!CellType::Rack.is_passable());
    assert!(!CellType::Blocked.is_passable());
    assert_eq!(CellType::default(), CellType::Floor);
}

#[test]
fn racks_overwrite_the_cells_they_cover() {
    let mut g = WarehouseGrid::new(6, 5);
    g.set(GridPos::new(0, 0), CellType::Blocked);
    let racks = vec![
        Rack { start: GridPos::new(1, 1), end: GridPos::new(2, 3) },
        Rack { start: GridPos::new(4, 4), end: GridPos::new(9, 9) },
        Rack { start: GridPos::new(-5, 0), end: GridPos::new(0, 0) },
    ];
    g.apply_racks(&racks);
    for x in 0..6 {
        for y in 0..5 {
            let in_rack = ((1..=2).contains(&x) && (1..=3).contains(&y)) || (x >= 4 && y >= 4) || (x == 0 && y == 0);
            let expected = if in_rack { CellType::Rack } else { CellType::Floor };
            assert_eq!(g.get(GridPos::new(x, y)), Some(expected), "cell ({}, {})", x, y);
        }
    }
    assert_eq!(g.width(), 6);
    assert_eq!(g.height(), 5);
}

#[test]
fn default_grid_has_the_default_dimensions() {
    let g = WarehouseGrid::default();
    assert_eq!((g.width(), g.height()), (80, 60));
    assert!(g.is_passable(GridPos::new(79, 59)));
    assert!(!g.is_passable(GridPos::new(80, 59)));
}

#[test]
fn floor_plan_bounds() {
    let h = HighwayGraph::new(5, 3);
    assert!(h.in_bounds(GridPos::new(0, 0)));
    assert!(h.in_bounds(GridPos::new(4, 2)));
    assert!(!h.in_bounds(GridPos::new(5, 2)));
    assert!(!h.in_bounds(GridPos::new(4, 3)));
    assert!(!h.in_bounds(GridPos::new(-1, 0)));
    assert!(!h.in_bounds(GridPos::new(0, -1)));
}

#[test]
fn legal_neighbors_come_north_east_south_west() {
    let h = HighwayGraph::new(5, 3);
    assert_eq!(
        h.legal_neighbors(GridPos::new(2, 1)),
        vec![GridPos::new(2, 2), GridPos::new(3, 1), GridPos::new(2, 0), GridPos::new(1, 1)]
    );
    assert_eq!(h.legal_neighbors(GridPos::new(0, 0)), vec![GridPos::new(0, 1), GridPos::new(1, 0)]);
    assert_eq!(h.legal_neighbors(GridPos::new(4, 2)), vec![GridPos::new(4, 1), GridPos::new(3, 2)]);
    assert_eq!(h.legal_neighbors(GridPos::new(5, 1)), vec![GridPos::new(4, 1)]);
    assert_eq!(h.legal_neighbors(GridPos::new(20, 20)), Vec::<GridPos>::new());
    assert_eq!(h.legal_neighbors(GridPos::new(i32::MAX, i32::MAX)), Vec::<GridPos>::new());
}

#[test]
fn legal_moves_are_single_steps_into_the_plan() {
    let h = HighwayGraph::new(5, 3);
    assert!(h.is_move_legal(GridPos::new(1, 1), GridPos::new(2, 1)));
    assert!(h.is_move_legal(GridPos::new(1, 1), GridPos::new(1, 0)));
    assert!(h.is_move_legal(GridPos::new(5, 1), GridPos::new(4, 1)));
    assert!(!h.is_move_legal(GridPos::new(1, 1), GridPos::new(1, 1)));
    assert!(!h.is_move_legal(GridPos::new(1, 1), GridPos::new(2, 2)));
    assert!(!h.is_move_legal(GridPos::new(1, 1), GridPos::new(3, 1)));
    assert!(!h.is_move_legal(GridPos::new(4, 1), GridPos::new(5, 1)));
    assert!(!h.is_move_legal(GridPos::new(i32::MIN, 0), GridPos::new(i32::MAX, 0)));
}

#[test]
fn zone_types_and_directions() {
    let h = HighwayGraph::default();
    assert_eq!(h.zone_type(GridPos::new(0, 5)), ZoneType::FreeZone);
    assert_eq!(h.zone_type(GridPos::new(7, 5)), ZoneType::FreeZone);
    assert_eq!(h.zone_type(GridPos::new(8, 5)), ZoneType::Highway);
    assert_eq!(h.zone_type(GridPos::new(-1, 5)), ZoneType::Highway);
    assert_eq!(
        h.allowed_directions(GridPos::new(3, 3)),
        [Direction::North, Direction::South, Direction::East, Direction::West]
    );
    assert!(h.in_bounds(GridPos::new(79, 59)));
    assert!(!h.in_bounds(GridPos::new(80, 59)));
}
