//! Grid coordinates and the four cardinal directions.

use vstd::prelude::*;

verus! {

/// A cell of the grid, by integer coordinates.
#[derive(Debug, Clone, Copy, PartialEq, Eq, Structural, Hash)]
pub struct GridPos {
    pub x: i32,
    pub y: i32,
}

impl Default for GridPos {
    /// The origin.
    fn default() -> (p: GridPos)
        ensures
            p == (GridPos { x: 0, y: 0 }),
    {
        GridPos { x: 0, y: 0 }
    }
}

/// The stable handle by which an agent of the fleet is known.
#[derive(Debug, Clone, Copy, PartialEq, Eq, Structural, Hash)]
pub struct AgentId(pub u64);

/// A cardinal direction of travel.
#[derive(Debug, Clone, Copy, PartialEq, Eq, Structural, Hash)]
pub enum Direction {
    North,
    South,
    East,
    West,
}

/// Absolute value of a mathematical integer.
pub open spec fn abs_int(v: int) -> int {
    if v < 0 {
        -v
    } else {
        v
    }
}

/// Manhattan distance between two cells, as a mathematical integer.
pub open spec fn manhattan(a: GridPos, b: GridPos) -> int {
    abs_int(a.x - b.x) + abs_int(a.y - b.y)
}

/// Two cells are 4-adjacent: they are one step apart along exactly one axis.
pub open spec fn adjacent(a: GridPos, b: GridPos) -> bool {
    manhattan(a, b) == 1
}

/// The integer under which a cell is stored in hashed collections. Every
/// cell has its own integer.
pub open spec fn pos_code(pos: GridPos) -> u64 {
    ((pos.x + 0x8000_0000) * 0x1_0000_0000 + (pos.y + 0x8000_0000)) as u64
}

/// Two cells with one code are one cell.
pub proof fn lemma_pos_code_injective(p: GridPos, q: GridPos)
    requires
        pos_code(p) == pos_code(q),
    ensures
        p == q,
{
}

impl Direction {
    /// The four directions in the order in which neighbors are enumerated.
    pub const CARDINALS: [Direction; 4] = [Direction::North, Direction::East, Direction::South, Direction::West];

    /// The unit offset `(dx, dy)` of one step in this direction.
    pub open spec fn offset(self) -> (int, int) {
        match self {
            Direction::North => (0, 1),
            Direction::South => (0, -1),
            Direction::East => (1, 0),
            Direction::West => (-1, 0),
        }
    }

    /// The direction pointing the other way.
    pub open spec fn flipped(self) -> Direction {
        match self {
            Direction::North => Direction::South,
            Direction::South => Direction::North,
            Direction::East => Direction::West,
            Direction::West => Direction::East,
        }
    }

    /// The four directions in the order in which neighbors are enumerated.
    pub open spec fn cardinal_seq() -> Seq<Direction> {
        seq![Direction::North, Direction::East, Direction::South, Direction::West]
    }

    /// The unit offset `(dx, dy)` of one step in this direction.
    pub fn to_offset(&self) -> (d: (i32, i32))
        ensures
            (d.0 as int, d.1 as int) == self.offset(),
    {
        match self {
            Direction::North => (0, 1),
            Direction::South => (0, -1),
            Direction::East => (1, 0),
            Direction::West => (-1, 0),
        }
    }

    /// The direction pointing the other way.
    pub fn opposite(&self) -> (d: Direction)
        ensures
            d == self.flipped(),
            d.offset().0 == -self.offset().0,
            d.offset().1 == -self.offset().1,
            d.flipped() == *self,
    {
        match self {
            Direction::North => Direction::South,
            Direction::South => Direction::North,
            Direction::East => Direction::West,
            Direction::West => Direction::East,
        }
    }
}

impl GridPos {
    /// The cell one step away in direction `dir`, when its coordinates are
    /// representable.
    pub open spec fn step(self, dir: Direction) -> GridPos {
        GridPos { x: (self.x + dir.offset().0) as i32, y: (self.y + dir.offset().1) as i32 }
    }

    /// Whether the step in direction `dir` stays within the coordinate range.
    pub open spec fn can_step(self, dir: Direction) -> bool {
        &&& i32::MIN <= self.x + dir.offset().0 <= i32::MAX
        &&& i32::MIN <= self.y + dir.offset().1 <= i32::MAX
    }

    /// The cell with the coordinates `x` and `y`.
    pub fn new(x: i32, y: i32) -> (p: GridPos)
        ensures
            p == (GridPos { x, y }),
    {
        GridPos { x, y }
    }

    /// Computes the integer under which this cell is stored in hashed
    /// collections.
    pub fn encode(&self) -> (c: u64)
        ensures
            c == pos_code(*self),
    {
        let xu: u64 = (self.x as i64 + 0x8000_0000) as u64;
        let yu: u64 = (self.y as i64 + 0x8000_0000) as u64;
        xu * 0x1_0000_0000 + yu
    }

    /// Manhattan distance to `other`; the caller keeps it within `u32`.
    pub fn manhattan_distance(&self, other: &GridPos) -> (d: u32)
        requires
            manhattan(*self, *other) <= u32::MAX,
        ensures
            d == manhattan(*self, *other),
    {
        let d: u64 = self.distance(other);
        d as u32
    }

    /// Manhattan distance to `other`, for any two cells.
    pub fn distance(&self, other: &GridPos) -> (d: u64)
        ensures
            d == manhattan(*self, *other),
    {
        let dx: i64 = self.x as i64 - other.x as i64;
        let dy: i64 = self.y as i64 - other.y as i64;
        let ax: i64 = if dx < 0 { -dx } else { dx };
        let ay: i64 = if dy < 0 { -dy } else { dy };
        (ax + ay) as u64
    }

    /// The cell one step away in direction `dir`.
    pub fn neighbor(&self, dir: Direction) -> (p: GridPos)
        requires
            self.can_step(dir),
        ensures
            p == self.step(dir),
            adjacent(*self, p),
    {
        let (dx, dy) = dir.to_offset();
        GridPos { x: self.x + dx, y: self.y + dy }
    }

    /// The cell one step away in direction `dir`, or nothing when that cell
    /// has no representable coordinates.
    pub fn checked_neighbor(&self, dir: Direction) -> (p: Option<GridPos>)
        ensures
            p.is_some() == self.can_step(dir),
            p.is_some() ==> p.unwrap() == self.step(dir),
    {
        let (dx, dy) = dir.to_offset();
        match (self.x.checked_add(dx), self.y.checked_add(dy)) {
            (Some(x), Some(y)) => Some(GridPos { x, y }),
            _ => None,
        }
    }
}

} // verus!
