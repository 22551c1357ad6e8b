//! Which moves the floor plan allows from a cell.

use crate::constants::GRID_HEIGHT;
use crate::constants::GRID_WIDTH;
use crate::constants::SPAWN_ZONE_WIDTH;
use crate::grid::in_rect;
use crate::types::manhattan;
use crate::types::Direction;
use crate::types::GridPos;
use vstd::prelude::*;

verus! {

/// The traffic regime of a cell.
#[derive(Debug, Clone, Copy, PartialEq, Eq, Structural)]
pub enum ZoneType {
    FreeZone,
    Highway,
    Storage,
}

/// The floor plan as far as traffic rules go: a rectangle within which
/// every cardinal move is allowed.
pub struct HighwayGraph {
    width: u32,
    height: u32,
}

impl Default for HighwayGraph {
    /// The floor plan of the default warehouse: 80 by 60 cells.
    fn default() -> (g: HighwayGraph)
        ensures
            g.cols() == GRID_WIDTH,
            g.rows() == GRID_HEIGHT,
    {
        HighwayGraph::new(GRID_WIDTH, GRID_HEIGHT)
    }
}

impl HighwayGraph {
    /// The number of columns.
    pub closed spec fn cols(&self) -> u32 {
        self.width
    }

    /// The number of rows.
    pub closed spec fn rows(&self) -> u32 {
        self.height
    }

    /// Whether `pos` lies on the floor plan.
    pub open spec fn within(&self, pos: GridPos) -> bool {
        in_rect(pos, self.cols(), self.rows())
    }

    /// The neighbor of `pos` in direction `dir`, if it lies on the floor
    /// plan; as a sequence of one cell or none.
    pub open spec fn neighbor_toward(&self, pos: GridPos, dir: Direction) -> Seq<GridPos> {
        if pos.can_step(dir) && self.within(pos.step(dir)) {
            seq![pos.step(dir)]
        } else {
            Seq::empty()
        }
    }

    /// The neighbors of `pos` on the floor plan: north, east, south, west,
    /// in this order.
    pub open spec fn neighbor_seq(&self, pos: GridPos) -> Seq<GridPos> {
        self.neighbor_toward(pos, Direction::North) + self.neighbor_toward(pos, Direction::East)
            + self.neighbor_toward(pos, Direction::South) + self.neighbor_toward(
            pos,
            Direction::West,
        )
    }

    /// A floor plan of `width` by `height` cells.
    pub fn new(width: u32, height: u32) -> (g: HighwayGraph)
        ensures
            g.cols() == width,
            g.rows() == height,
    {
        HighwayGraph { width, height }
    }

    /// The traffic regime at `pos`: free movement in the spawn zone along
    /// the left edge, highway rules elsewhere.
    pub fn zone_type(&self, pos: GridPos) -> (zone: ZoneType)
        ensures
            zone == if 0 <= pos.x < SPAWN_ZONE_WIDTH {
                ZoneType::FreeZone
            } else {
                ZoneType::Highway
            },
    {
        if pos.x >= 0 && (pos.x as u32) < SPAWN_ZONE_WIDTH {
            ZoneType::FreeZone
        } else {
            ZoneType::Highway
        }
    }

    /// The directions in which an agent may leave `pos`: all four.
    pub fn allowed_directions(&self, pos: GridPos) -> (dirs: [Direction; 4])
        ensures
            dirs@ == seq![Direction::North, Direction::South, Direction::East, Direction::West],
    {
        let dirs = [Direction::North, Direction::South, Direction::East, Direction::West];
        assert(dirs@ =~= seq![Direction::North, Direction::South, Direction::East, Direction::West]);
        dirs
    }

    /// Whether `pos` lies on the floor plan.
    pub fn in_bounds(&self, pos: GridPos) -> (inside: bool)
        ensures
            inside == self.within(pos),
    {
        pos.x >= 0 && pos.y >= 0 && (pos.x as u32) < self.width && (pos.y as u32) < self.height
    }

    /// Whether `to` is one cardinal step from `from` and lies on the floor
    /// plan.
    pub fn is_move_legal(&self, from: GridPos, to: GridPos) -> (legal: bool)
        ensures
            legal == (manhattan(from, to) == 1 && self.within(to)),
    {
        from.distance(&to) == 1 && self.in_bounds(to)
    }

    /// The neighbors of `pos` on the floor plan, in the order north, east,
    /// south, west.
    pub fn legal_neighbors(&self, pos: GridPos) -> (cells: Vec<GridPos>)
        ensures
            cells@ == self.neighbor_seq(pos),
            cells@.len() <= 4,
            forall|i: int| 0 <= i < cells@.len() ==> manhattan(pos, #[trigger] cells@[i]) == 1 && self.within(cells@[i]),
    {
        let dirs = Direction::CARDINALS;
        assert(dirs@ =~= Direction::cardinal_seq());
        let mut cells: Vec<GridPos> = Vec::new();
        let mut i: usize = 0;
        while i < 4
            invariant
                i <= 4,
                cells@.len() <= i,
                dirs@ == Direction::cardinal_seq(),
                forall|j: int| 0 <= j < cells@.len() ==> manhattan(pos, #[trigger] cells@[j]) == 1 && self.within(cells@[j]),
                i == 0 ==> cells@ == Seq::<GridPos>::empty(),
                i == 1 ==> cells@ == self.neighbor_toward(pos, Direction::North),
                i == 2 ==> cells@ == self.neighbor_toward(pos, Direction::North) + self.neighbor_toward(
                    pos,
                    Direction::East,
                ),
                i == 3 ==> cells@ == self.neighbor_toward(pos, Direction::North) + self.neighbor_toward(
                    pos,
                    Direction::East,
                ) + self.neighbor_toward(pos, Direction::South),
                i == 4 ==> cells@ == self.neighbor_seq(pos),
            decreases 4 - i,
        {
            let ghost before = cells@;
            let dir = dirs[i];
            if let Some(n) = pos.checked_neighbor(dir) {
                if self.in_bounds(n) {
                    cells.push(n);
                    assert(cells@ =~= before + self.neighbor_toward(pos, dir));
                }
            }
            assert(cells@ =~= before + self.neighbor_toward(pos, dir));
            i += 1;
        }
        cells
    }
}

} // verus!
