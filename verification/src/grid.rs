//! The static passability map of the warehouse floor.

use crate::constants::GRID_HEIGHT;
use crate::constants::GRID_WIDTH;
use crate::types::GridPos;
use crate::zones::any_rack_contains;
use crate::zones::racks_cover;
use crate::zones::Rack;
use vstd::prelude::*;

verus! {

/// What occupies a cell of the floor.
#[derive(Debug, Clone, Copy, PartialEq, Eq, Structural)]
pub enum CellType {
    Floor,
    Rack,
    Blocked,
}

impl Default for CellType {
    fn default() -> (c: CellType)
        ensures
            c == CellType::Floor,
    {
        CellType::Floor
    }
}

impl CellType {
    /// Only floor can be driven on.
    pub fn is_passable(&self) -> (passable: bool)
        ensures
            passable == (*self == CellType::Floor),
    {
        match self {
            CellType::Floor => true,
            _ => false,
        }
    }
}

/// Whether `pos` lies in the rectangle of `width` by `height` cells whose
/// corner is the origin.
pub open spec fn in_rect(pos: GridPos, width: u32, height: u32) -> bool {
    0 <= pos.x < width && 0 <= pos.y < height
}

/// A rectangle of cells, stored row by row. Its dimensions never change.
pub struct WarehouseGrid {
    width: u32,
    height: u32,
    cells: Vec<CellType>,
}

impl Default for WarehouseGrid {
    /// The floor of the default warehouse: 80 by 60 cells.
    fn default() -> (g: WarehouseGrid)
        ensures
            g.wf(),
            g.cols() == GRID_WIDTH,
            g.rows() == GRID_HEIGHT,
            forall|pos: GridPos| in_rect(pos, GRID_WIDTH, GRID_HEIGHT) ==> g.at(pos) == Some(CellType::Floor),
    {
        WarehouseGrid::new(GRID_WIDTH, GRID_HEIGHT)
    }
}

impl WarehouseGrid {
    /// The stored cells fill the rectangle of the grid's dimensions.
    pub closed spec fn wf(&self) -> bool {
        &&& self.cells@.len() == self.width * self.height
        &&& self.width * self.height <= usize::MAX
    }

    /// The number of columns.
    pub closed spec fn cols(&self) -> u32 {
        self.width
    }

    /// The number of rows.
    pub closed spec fn rows(&self) -> u32 {
        self.height
    }

    /// What the grid holds at `pos`: nothing outside the grid.
    pub closed spec fn at(&self, pos: GridPos) -> Option<CellType> {
        if in_rect(pos, self.width, self.height) {
            Some(self.cells@[pos.y * self.width + pos.x])
        } else {
            None
        }
    }

    /// Whether `pos` is a floor cell of the grid.
    pub open spec fn passable(&self, pos: GridPos) -> bool {
        self.at(pos) == Some(CellType::Floor)
    }

    /// A grid of `width` by `height` floor cells.
    pub fn new(width: u32, height: u32) -> (g: WarehouseGrid)
        requires
            width * height <= u32::MAX,
        ensures
            g.wf(),
            g.cols() == width,
            g.rows() == height,
            forall|pos: GridPos| in_rect(pos, width, height) ==> g.at(pos) == Some(CellType::Floor),
            forall|pos: GridPos| !in_rect(pos, width, height) ==> g.at(pos).is_none(),
    {
        let size: usize = (width as u64 * height as u64) as usize;
        let mut cells: Vec<CellType> = Vec::with_capacity(size);
        let mut i: usize = 0;
        while i < size
            invariant
                i <= size,
                cells@.len() == i,
                forall|j: int| 0 <= j < i ==> cells@[j] == CellType::Floor,
            decreases size - i,
        {
            cells.push(CellType::Floor);
            i += 1;
        }
        let g = WarehouseGrid { width, height, cells };
        proof {
            assert forall|pos: GridPos| in_rect(pos, width, height) implies g.at(pos) == Some(
                CellType::Floor,
            ) by {
                lemma_index_within(pos, width, height);
            }
        }
        g
    }

    /// Where `pos` is stored, if it lies in the grid.
    fn index(&self, pos: GridPos) -> (i: Option<usize>)
        requires
            self.wf(),
        ensures
            i.is_some() == in_rect(pos, self.cols(), self.rows()),
            i.is_some() ==> i.unwrap() == pos.y * self.cols() + pos.x && i.unwrap() < self.cells@.len(),
    {
        if pos.x < 0 || pos.y < 0 {
            return None;
        }
        let x: u32 = pos.x as u32;
        let y: u32 = pos.y as u32;
        if x >= self.width || y >= self.height {
            return None;
        }
        proof {
            lemma_index_within(pos, self.width, self.height);
            assert(0 <= y * self.width) by (nonlinear_arith)
                requires
                    0 <= y,
                    0 <= self.width,
            ;
        }
        Some((y as u64 * self.width as u64 + x as u64) as usize)
    }

    /// What the grid holds at `pos`, or nothing when `pos` is outside.
    pub fn get(&self, pos: GridPos) -> (c: Option<CellType>)
        requires
            self.wf(),
        ensures
            c == self.at(pos),
            c.is_some() == in_rect(pos, self.cols(), self.rows()),
    {
        match self.index(pos) {
            Some(i) => Some(self.cells[i]),
            None => None,
        }
    }

    /// Writes `cell` at `pos`; a position outside the grid is left alone.
    pub fn set(&mut self, pos: GridPos, cell: CellType)
        requires
            old(self).wf(),
        ensures
            final(self).wf(),
            final(self).cols() == old(self).cols(),
            final(self).rows() == old(self).rows(),
            forall|q: GridPos|
                #[trigger] final(self).at(q) == if q == pos && old(self).at(pos).is_some() {
                    Some(cell)
                } else {
                    old(self).at(q)
                },
    {
        if let Some(i) = self.index(pos) {
            self.cells.set(i, cell);
            proof {
                assert forall|q: GridPos|
                    #[trigger] self.at(q) == if q == pos && old(self).at(pos).is_some() {
                        Some(cell)
                    } else {
                        old(self).at(q)
                    } by {
                    if in_rect(q, self.width, self.height) {
                        lemma_index_within(q, self.width, self.height);
                    }
                    if in_rect(q, self.width, self.height) && q != pos {
                        if q.y * self.width + q.x == pos.y * self.width + pos.x {
                            lemma_index_injective(q, pos, self.width, self.height);
                        }
                    }
                }
            }
        }
    }

    /// Whether `pos` is a floor cell of the grid.
    pub fn is_passable(&self, pos: GridPos) -> (passable: bool)
        requires
            self.wf(),
        ensures
            passable == self.passable(pos),
            passable ==> in_rect(pos, self.cols(), self.rows()),
    {
        match self.get(pos) {
            Some(c) => c.is_passable(),
            None => false,
        }
    }

    /// Turns every cell of the grid that some rack of `racks` covers into a
    /// rack cell, and leaves the others as they are.
    pub fn apply_racks(&mut self, racks: &Vec<Rack>)
        requires
            old(self).wf(),
        ensures
            final(self).wf(),
            final(self).cols() == old(self).cols(),
            final(self).rows() == old(self).rows(),
            forall|q: GridPos|
                #[trigger] final(self).at(q) == if old(self).at(q).is_some() && racks_cover(racks@, q) {
                    Some(CellType::Rack)
                } else {
                    old(self).at(q)
                },
    {
        let xmax: u32 = if self.width < 0x8000_0000 { self.width } else { 0x8000_0000 };
        let ymax: u32 = if self.height < 0x8000_0000 { self.height } else { 0x8000_0000 };
        let mut y: u32 = 0;
        while y < ymax
            invariant
                self.wf(),
                self.width == old(self).width,
                self.height == old(self).height,
                xmax == (if self.width < 0x8000_0000 { self.width } else { 0x8000_0000u32 }),
                ymax == (if self.height < 0x8000_0000 { self.height } else { 0x8000_0000u32 }),
                y <= ymax,
                forall|q: GridPos|
                    #[trigger] self.at(q) == if old(self).at(q).is_some() && q.y < y && racks_cover(
                        racks@,
                        q,
                    ) {
                        Some(CellType::Rack)
                    } else {
                        old(self).at(q)
                    },
            decreases ymax - y,
        {
            let mut x: u32 = 0;
            while x < xmax
                invariant
                    self.wf(),
                    self.width == old(self).width,
                    self.height == old(self).height,
                    xmax == (if self.width < 0x8000_0000 { self.width } else { 0x8000_0000u32 }),
                    ymax == (if self.height < 0x8000_0000 { self.height } else { 0x8000_0000u32 }),
                    y < ymax,
                    x <= xmax,
                    forall|q: GridPos|
                        #[trigger] self.at(q) == if old(self).at(q).is_some() && (q.y < y || (q.y == y
                            && q.x < x)) && racks_cover(racks@, q) {
                            Some(CellType::Rack)
                        } else {
                            old(self).at(q)
                        },
                decreases xmax - x,
            {
                let pos = GridPos { x: x as i32, y: y as i32 };
                if any_rack_contains(racks, pos) {
                    self.set(pos, CellType::Rack);
                }
                x += 1;
            }
            y += 1;
        }
    }

    /// The number of columns.
    pub fn width(&self) -> (w: u32)
        ensures
            w == self.cols(),
    {
        self.width
    }

    /// The number of rows.
    pub fn height(&self) -> (h: u32)
        ensures
            h == self.rows(),
    {
        self.height
    }
}

/// The row-major index of a cell of the rectangle lies within its area.
pub proof fn lemma_index_within(pos: GridPos, width: u32, height: u32)
    requires
        in_rect(pos, width, height),
    ensures
        0 <= pos.y * width + pos.x < width * height,
{
    assert(pos.y * width + pos.x < width * height) by (nonlinear_arith)
        requires
            0 <= pos.x < width,
            0 <= pos.y < height,
    ;
    assert(0 <= pos.y * width) by (nonlinear_arith)
        requires
            0 <= pos.y,
            0 <= width,
    ;
}

/// Two cells of the rectangle with one row-major index are one cell.
pub proof fn lemma_index_injective(p: GridPos, q: GridPos, width: u32, height: u32)
    requires
        in_rect(p, width, height),
        in_rect(q, width, height),
        p.y * width + p.x == q.y * width + q.x,
    ensures
        p == q,
{
    assert(p.y == q.y) by (nonlinear_arith)
        requires
            0 <= p.x < width,
            0 <= q.x < width,
            p.y * width + p.x == q.y * width + q.x,
    ;
}

} // verus!
