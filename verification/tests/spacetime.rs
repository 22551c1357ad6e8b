use warehouse_sim::spacetime::{SpaceTimeKey, SpaceTimeTable, Sweep};
use warehouse_sim::types::{AgentId, GridPos};

const A: AgentId = AgentId(1);
const B: AgentId = AgentId(2);

fn p(x: i32, y: i32) -> GridPos {
    GridPos::new(x, y)
}

#[test]
fn slot_codes_round_trip() {
    let keys = [
        SpaceTimeKey::new(p(0, 0), 0),
        SpaceTimeKey::new(p(3, -7), 12345),
        SpaceTimeKey::new(p(i32::MIN, i32::MAX), u64::MAX),
        SpaceTimeKey::new(p(i32::MAX, i32::MIN), 1),
    ];
    for k in keys {
        assert_eq!(SpaceTimeKey::decode(k.encode()), k);
    }
    assert_eq!(SpaceTimeKey::new(p(i32::MIN, i32::MIN), 0).encode(), 0);
    assert_eq!(SpaceTimeKey::new(p(i32::MAX, i32::MAX), u64::MAX).encode(), u128::MAX);
    assert_eq!(SpaceTimeKey::new(p(i32::MIN, i32::MIN), 7).encode(), 7);
    assert_eq!(SpaceTimeKey::new(p(i32::MIN, i32::MIN + 1), 0).encode(), 1u128 << 64);
    assert_eq!(SpaceTimeKey::new(p(i32::MIN + 1, i32::MIN), 0).encode(), 1u128 << 96);
    assert_ne!(SpaceTimeKey::new(p(1, 0), 0).encode(), SpaceTimeKey::new(p(0, 1), 0).encode());
    assert_ne!(SpaceTimeKey::new(p(0, 0), 1).encode(), SpaceTimeKey::new(p(0, 1), 0).encode());
}

#[test]
fn reserve_takes_an_empty_slot() {
    let mut t = SpaceTimeTable::new();
    assert!(t.is_free(p(1, 1), 5, None));
    assert!(t.reserve(p(1, 1), 5, A));
    assert!(!t.is_free(p(1, 1), 5, None));
    assert!(t.is_free(p(1, 1), 5, Some(A)));
    assert!(!t.is_free(p(1, 1), 5, Some(B)));
    assert!(t.is_free(p(1, 1), 6, None));
    assert!(t.is_free(p(1, 2), 5, None));
}

#[test]
fn reserve_is_idempotent_for_the_owner_and_rejects_others() {
    let mut t = SpaceTimeTable::new();
    assert!(t.reserve(p(2, 3), 7, A));
    assert!(t.reserve(p(2, 3), 7, A));
    assert!(!t.reserve(p(2, 3), 7, B));
    assert!(t.is_free(p(2, 3), 7, Some(A)));
    assert!(!t.is_free(p(2, 3), 7, Some(B)));
}

#[test]
fn reserve_path_writes_every_slot() {
    let mut t = SpaceTimeTable::new();
    let path = vec![(p(0, 0), 0), (p(1, 0), 1), (p(1, 0), 2), (p(2, 0), 3)];
    assert!(t.reserve_path(&path, A));
    for (c, tick) in &path {
        assert!(!t.is_free(*c, *tick, None));
        assert!(t.is_free(*c, *tick, Some(A)));
    }
    assert!(t.is_free(p(2, 0), 2, None));
    assert!(t.reserve_path(&path, A));
    assert!(t.reserve_path(&[], B));
}

#[test]
fn reserve_path_is_all_or_nothing() {
    let mut t = SpaceTimeTable::new();
    assert!(t.reserve(p(2, 0), 3, B));
    let path = vec![(p(0, 0), 0), (p(1, 0), 1), (p(1, 0), 2), (p(2, 0), 3)];
    assert!(!t.reserve_path(&path, A));
    assert!(t.is_free(p(0, 0), 0, None));
    assert!(t.is_free(p(1, 0), 1, None));
    assert!(t.is_free(p(1, 0), 2, None));
    assert!(t.is_free(p(2, 0), 3, Some(B)));
    assert!(!t.is_free(p(2, 0), 3, Some(A)));
}

#[test]
fn edge_is_blocked_by_a_reverse_move() {
    let mut t = SpaceTimeTable::new();
    // B moves from (2,0) at tick 4 to (1,0) at tick 5.
    assert!(t.reserve(p(2, 0), 4, B));
    assert!(t.reserve(p(1, 0), 5, B));
    // A would move from (1,0) at tick 4 to (2,0) at tick 5.
    assert!(!t.is_edge_free(p(1, 0), p(2, 0), 4, Some(A)));
    assert!(!t.is_edge_free(p(1, 0), p(2, 0), 4, None));
    assert!(t.is_edge_free(p(1, 0), p(2, 0), 4, Some(B)));
    // One tick later nothing crosses.
    assert!(t.is_edge_free(p(1, 0), p(2, 0), 5, Some(A)));
    assert!(t.is_edge_free(p(3, 0), p(4, 0), 4, Some(A)));
}

#[test]
fn edge_is_blocked_by_either_slot() {
    let mut t = SpaceTimeTable::new();
    assert!(t.reserve(p(2, 0), 4, B));
    assert!(!t.is_edge_free(p(1, 0), p(2, 0), 4, Some(A)));
    let mut u = SpaceTimeTable::new();
    assert!(u.reserve(p(1, 0), 5, B));
    assert!(!u.is_edge_free(p(1, 0), p(2, 0), 4, Some(A)));
    assert!(u.is_edge_free(p(1, 0), p(2, 0), 3, Some(A)));
}

#[test]
fn clear_entity_frees_what_the_agent_held() {
    let mut t = SpaceTimeTable::new();
    assert!(t.reserve(p(1, 1), 5, A));
    assert!(t.reserve(p(1, 2), 6, A));
    assert!(t.reserve(p(3, 3), 5, B));
    t.clear_entity(A);
    assert!(t.is_free(p(1, 1), 5, None));
    assert!(t.is_free(p(1, 2), 6, None));
    assert!(!t.is_free(p(3, 3), 5, None));
    assert!(t.is_free(p(3, 3), 5, Some(B)));
    t.clear_entity(A);
    assert!(t.is_free(p(3, 3), 5, Some(B)));
}

#[test]
fn clear_entity_except_pos_keeps_the_anchor() {
    let mut t = SpaceTimeTable::new();
    for tick in 8..16 {
        assert!(t.reserve(p(4, 4), tick, A));
    }
    assert!(t.reserve(p(5, 4), 10, A));
    assert!(t.reserve(p(4, 4), 20, B));
    assert!(t.reserve(p(6, 6), 10, B));
    t.clear_entity_except_pos(A, p(4, 4), 10);
    for tick in 8..16 {
        let kept = (10..13).contains(&tick);
        assert_eq!(!t.is_free(p(4, 4), tick, None), kept, "tick {}", tick);
    }
    assert!(t.is_free(p(5, 4), 10, None));
    assert!(!t.is_free(p(4, 4), 20, None));
    assert!(!t.is_free(p(6, 6), 10, None));
}

#[test]
fn clear_entity_except_pos_at_the_end_of_time() {
    let mut t = SpaceTimeTable::new();
    assert!(t.reserve(p(0, 0), u64::MAX, A));
    assert!(t.reserve(p(0, 0), u64::MAX - 1, A));
    assert!(t.reserve(p(0, 0), u64::MAX - 2, A));
    t.clear_entity_except_pos(A, p(0, 0), u64::MAX - 1);
    assert!(!t.is_free(p(0, 0), u64::MAX, None));
    assert!(!t.is_free(p(0, 0), u64::MAX - 1, None));
    assert!(t.is_free(p(0, 0), u64::MAX - 2, None));
}

#[test]
fn cleanup_keeps_the_preceding_tick() {
    let mut t = SpaceTimeTable::new();
    for tick in 0..12 {
        assert!(t.reserve(p(1, 1), tick, A));
    }
    t.cleanup(10);
    for tick in 0..12 {
        assert_eq!(t.is_free(p(1, 1), tick, None), tick < 9, "tick {}", tick);
    }
    assert_eq!(t.current_tick(), 10);
}

#[test]
fn cleanup_at_tick_zero_keeps_everything() {
    let mut t = SpaceTimeTable::new();
    assert!(t.reserve(p(1, 1), 0, A));
    assert!(t.reserve(p(1, 1), 1, B));
    t.cleanup(0);
    assert!(!t.is_free(p(1, 1), 0, None));
    assert!(!t.is_free(p(1, 1), 1, None));
    assert_eq!(t.current_tick(), 0);
}

#[test]
fn clock_advances_by_one() {
    let mut t = SpaceTimeTable::new();
    assert_eq!(t.current_tick(), 0);
    t.advance_tick();
    t.advance_tick();
    assert_eq!(t.current_tick(), 2);
    assert!(t.reserve(p(0, 0), 2, A));
    t.advance_tick();
    assert!(!t.is_free(p(0, 0), 2, None));
}

#[test]
fn sweeps_decide_by_owner_cell_and_tick() {
    let key = SpaceTimeKey::new(p(4, 4), 11).encode();
    assert!(!Sweep::Agent(A).keeps_entry(key, 1));
    assert!(Sweep::Agent(A).keeps_entry(key, 2));
    let anchor = Sweep::AgentExceptAnchor { agent: A, pos: p(4, 4), now: 10 };
    assert!(anchor.keeps_entry(key, 1));
    assert!(anchor.keeps_entry(SpaceTimeKey::new(p(4, 4), 12).encode(), 1));
    assert!(!anchor.keeps_entry(SpaceTimeKey::new(p(4, 4), 13).encode(), 1));
    assert!(!anchor.keeps_entry(SpaceTimeKey::new(p(4, 4), 9).encode(), 1));
    assert!(!anchor.keeps_entry(SpaceTimeKey::new(p(4, 5), 11).encode(), 1));
    assert!(anchor.keeps_entry(SpaceTimeKey::new(p(4, 5), 11).encode(), 2));
    assert!(Sweep::Stale { now: 12 }.keeps_entry(key, 1));
    assert!(!Sweep::Stale { now: 13 }.keeps_entry(key, 1));
    assert!(Sweep::Stale { now: 0 }.keeps_entry(SpaceTimeKey::new(p(0, 0), 0).encode(), 1));
}
