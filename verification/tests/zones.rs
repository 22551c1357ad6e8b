use warehouse_sim::types::GridPos;
use warehouse_sim::zones::{any_rack_contains, cells_clear_of, cells_disjoint, CellPool, Rack, WarehouseZones};

fn p(x: i32, y: i32) -> GridPos {
    GridPos::new(x, y)
}

fn small_zones() -> WarehouseZones {
    WarehouseZones::from_cells(
        vec![p(0, 0), p(0, 1)],
        vec![p(3, 0), p(3, 1), p(3, 2)],
        vec![p(6, 0), p(6, 1)],
        vec![Rack { start: p(4, 0), end: p(5, 2) }],
    )
    .unwrap()
}

#[test]
fn rack_contains_its_corners() {
    let r = Rack { start: p(2, 3), end: p(4, 8) };
    assert!(r.contains(p(2, 3)));
    assert!(r.contains(p(4, 8)));
    assert!(r.contains(p(3, 5)));
    assert!(!r.contains(p(1, 5)));
    assert!(!r.contains(p(5, 5)));
    assert!(!r.contains(p(3, 2)));
    assert!(!r.contains(p(3, 9)));
    let racks = vec![r, Rack { start: p(10, 10), end: p(10, 10) }];
    assert!(any_rack_contains(&racks, p(10, 10)));
    assert!(!any_rack_contains(&racks, p(9, 10)));
    assert!(!any_rack_contains(&Vec::new(), p(3, 5)));
}

#[test]
fn default_zones_have_the_default_layout() {
    let z = WarehouseZones::default();
    assert_eq!(z.spawn_points().len(), 84);
    assert_eq!(z.storage_cells().len(), 864);
    assert_eq!(z.cargo_cells().len(), 114);
    assert_eq!(z.racks().len(), 36);
    assert_eq!(z.spawn_points()[0], p(1, 2));
    assert_eq!(z.spawn_points()[1], p(1, 6));
    assert_eq!(z.spawn_points()[13], p(1, 54));
    assert_eq!(z.spawn_points()[14], p(2, 2));
    assert_eq!(z.spawn_points()[83], p(6, 54));
    assert_eq!(z.cargo_cells()[0], p(73, 2));
    assert_eq!(z.cargo_cells()[18], p(73, 56));
    assert_eq!(z.cargo_cells()[19], p(74, 2));
    assert_eq!(z.cargo_cells()[113], p(78, 56));
    assert_eq!(z.racks()[0], Rack { start: p(11, 3), end: p(12, 14) });
    assert_eq!(z.racks()[11], Rack { start: p(66, 3), end: p(67, 14) });
    assert_eq!(z.racks()[12], Rack { start: p(11, 18), end: p(12, 29) });
    assert_eq!(z.racks()[35], Rack { start: p(66, 33), end: p(67, 44) });
    assert_eq!(z.storage_cells()[0], p(10, 3));
    assert_eq!(z.storage_cells()[11], p(10, 14));
    assert_eq!(z.storage_cells()[12], p(10, 18));
    assert_eq!(z.storage_cells()[35], p(10, 44));
    assert_eq!(z.storage_cells()[36], p(13, 3));
    assert_eq!(z.storage_cells()[72], p(15, 3));
    assert_eq!(z.storage_cells()[863], p(68, 44));
}

#[test]
fn default_storage_cells_are_sorted_and_beside_racks() {
    let z = WarehouseZones::default();
    let cells = z.storage_cells();
    for w in cells.windows(2) {
        assert!((w[0].x, w[0].y) < (w[1].x, w[1].y));
    }
    for c in cells {
        assert!(!z.is_rack(*c));
        assert!(z.is_rack(p(c.x + 1, c.y)) || z.is_rack(p(c.x - 1, c.y)));
    }
    assert!(cells_disjoint(z.spawn_points(), z.storage_cells()));
    assert!(cells_disjoint(z.spawn_points(), z.cargo_cells()));
    assert!(cells_disjoint(z.storage_cells(), z.cargo_cells()));
    assert!(cells_clear_of(z.spawn_points(), z.racks()));
    assert!(cells_clear_of(z.cargo_cells(), z.racks()));
}

#[test]
fn is_rack_is_a_point_in_rectangle_test() {
    let z = WarehouseZones::default();
    assert!(z.is_rack(p(11, 3)));
    assert!(z.is_rack(p(12, 14)));
    assert!(!z.is_rack(p(10, 3)));
    assert!(!z.is_rack(p(13, 3)));
    assert!(!z.is_rack(p(11, 15)));
    assert!(!z.is_rack(p(11, 2)));
    assert!(z.is_rack(p(67, 44)));
    assert!(!z.is_rack(p(68, 44)));
}

#[test]
fn from_cells_refuses_overlapping_lists() {
    let rack = Rack { start: p(4, 0), end: p(5, 2) };
    assert!(WarehouseZones::from_cells(vec![p(0, 0)], vec![p(0, 0)], vec![p(6, 0)], vec![rack]).is_none());
    assert!(WarehouseZones::from_cells(vec![p(0, 0)], vec![p(3, 0)], vec![p(0, 0)], vec![rack]).is_none());
    assert!(WarehouseZones::from_cells(vec![p(0, 0)], vec![p(3, 0)], vec![p(3, 0)], vec![rack]).is_none());
    assert!(WarehouseZones::from_cells(vec![p(4, 1)], vec![p(3, 0)], vec![p(6, 0)], vec![rack]).is_none());
    assert!(WarehouseZones::from_cells(vec![p(0, 0)], vec![p(5, 2)], vec![p(6, 0)], vec![rack]).is_none());
    assert!(WarehouseZones::from_cells(vec![p(0, 0)], vec![p(3, 0)], vec![p(4, 0)], vec![rack]).is_none());
    assert!(WarehouseZones::from_cells(vec![p(0, 0)], vec![p(3, 0)], vec![p(6, 0)], vec![rack]).is_some());
    assert!(WarehouseZones::from_cells(vec![], vec![], vec![], vec![]).is_some());
}

#[test]
fn spawn_points_go_round() {
    let mut z = small_zones();
    assert_eq!(z.next_spawn(), p(0, 0));
    assert_eq!(z.next_spawn(), p(0, 1));
    assert_eq!(z.next_spawn(), p(0, 0));
    assert_eq!(z.next_spawn(), p(0, 1));
}

#[test]
fn storage_is_reserved_in_rotation() {
    let mut z = small_zones();
    assert_eq!(z.reserve_storage(), Some(p(3, 0)));
    assert_eq!(z.reserve_storage(), Some(p(3, 1)));
    assert!(z.is_storage_reserved(p(3, 0)));
    assert!(z.is_storage_reserved(p(3, 1)));
    assert!(!z.is_storage_reserved(p(3, 2)));
    z.release_storage(p(3, 0));
    // The cursor stands behind the second cell, so the third comes before
    // the first.
    assert_eq!(z.reserve_storage(), Some(p(3, 2)));
    assert_eq!(z.reserve_storage(), Some(p(3, 0)));
    assert_eq!(z.reserve_storage(), None);
    assert!(!z.is_cargo_reserved(p(6, 0)));
}

#[test]
fn exhausted_pool_returns_nothing_and_recovers() {
    let mut z = small_zones();
    assert_eq!(z.reserve_cargo(), Some(p(6, 0)));
    assert_eq!(z.reserve_cargo(), Some(p(6, 1)));
    assert_eq!(z.reserve_cargo(), None);
    assert_eq!(z.reserve_cargo(), None);
    z.release_cargo(p(6, 1));
    assert!(!z.is_cargo_reserved(p(6, 1)));
    assert!(z.is_cargo_reserved(p(6, 0)));
    assert_eq!(z.reserve_cargo(), Some(p(6, 1)));
    assert_eq!(z.reserve_cargo(), None);
}

#[test]
fn release_is_idempotent() {
    let mut z = small_zones();
    assert_eq!(z.reserve_storage(), Some(p(3, 0)));
    z.release_storage(p(3, 0));
    z.release_storage(p(3, 0));
    z.release_storage(p(9, 9));
    assert!(!z.is_storage_reserved(p(3, 0)));
    assert_eq!(z.reserve_storage(), Some(p(3, 1)));
    assert_eq!(z.reserve_storage(), Some(p(3, 2)));
    assert_eq!(z.reserve_storage(), Some(p(3, 0)));
    assert_eq!(z.reserve_storage(), None);
}

#[test]
fn pool_without_cells_has_nothing_to_give() {
    let mut pool = CellPool::new(Vec::new());
    assert_eq!(pool.reserve(), None);
    pool.release(p(1, 1));
    assert!(!pool.is_reserved(p(1, 1)));
    assert!(pool.as_vec().is_empty());
}

#[test]
fn pool_with_a_repeated_cell_hands_it_out_once() {
    let mut pool = CellPool::new(vec![p(1, 1), p(1, 1), p(2, 2)]);
    assert_eq!(pool.reserve(), Some(p(1, 1)));
    assert_eq!(pool.reserve(), Some(p(2, 2)));
    assert_eq!(pool.reserve(), None);
    assert!(pool.is_reserved(p(1, 1)));
    pool.release(p(1, 1));
    assert_eq!(pool.reserve(), Some(p(1, 1)));
}
