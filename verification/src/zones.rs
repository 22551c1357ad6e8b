//! Spawn, storage and cargo cells of the warehouse, with the pools from
//! which missions reserve them, and the rack rectangles between them.

use crate::constants::AISLE_WIDTH;
use crate::constants::CARGO_ZONE_WIDTH;
use crate::constants::GRID_HEIGHT;
use crate::constants::GRID_WIDTH;
use crate::constants::RACK_LENGTH;
use crate::constants::RACK_SPACING;
use crate::constants::SPAWN_ZONE_WIDTH;
use crate::fx::set_contains;
use crate::fx::set_insert;
use crate::fx::set_remove;
use crate::types::lemma_pos_code_injective;
use crate::types::pos_code;
use crate::types::GridPos;
use rustc_hash::FxHashSet;
use vstd::prelude::*;

verus! {

broadcast use vstd::std_specs::hash::group_hash_axioms;

/// A rectangle of rack cells, corners included.
#[derive(Debug, Clone, Copy, PartialEq, Eq, Structural)]
pub struct Rack {
    pub start: GridPos,
    pub end: GridPos,
}

impl Rack {
    /// Whether `pos` lies in the rectangle.
    pub open spec fn covers(self, pos: GridPos) -> bool {
        self.start.x <= pos.x <= self.end.x && self.start.y <= pos.y <= self.end.y
    }

    /// Whether `pos` lies in the rectangle.
    pub fn contains(&self, pos: GridPos) -> (inside: bool)
        ensures
            inside == self.covers(pos),
    {
        pos.x >= self.start.x && pos.x <= self.end.x && pos.y >= self.start.y && pos.y <= self.end.y
    }
}

/// Whether some rack of `racks` covers `pos`.
pub open spec fn racks_cover(racks: Seq<Rack>, pos: GridPos) -> bool {
    exists|i: int| 0 <= i < racks.len() && (#[trigger] racks[i]).covers(pos)
}

/// Decides whether some rack of `racks` covers `pos`.
pub fn any_rack_contains(racks: &Vec<Rack>, pos: GridPos) -> (inside: bool)
    ensures
        inside == racks_cover(racks@, pos),
{
    let mut i: usize = 0;
    while i < racks.len()
        invariant
            i <= racks@.len(),
            forall|j: int| 0 <= j < i ==> !(#[trigger] racks@[j]).covers(pos),
        decreases racks@.len() - i,
    {
        if racks[i].contains(pos) {
            return true;
        }
        i += 1;
    }
    false
}

/// The place in a list of `len` cells that lies `i` places after `cursor`,
/// going round from the end to the beginning.
pub open spec fn wrap_index(len: int, cursor: int, i: int) -> int {
    if cursor + i < len {
        cursor + i
    } else {
        cursor + i - len
    }
}

/// `i` places after `cursor` lies the first cell of `cells` that is not in
/// `taken`.
pub open spec fn first_free_at(cells: Seq<GridPos>, taken: Set<GridPos>, cursor: int, i: int) -> bool {
    &&& 0 <= i < cells.len()
    &&& !taken.contains(cells[wrap_index(cells.len() as int, cursor, i)])
    &&& forall|j: int| 0 <= j < i ==> taken.contains(#[trigger] cells[wrap_index(cells.len() as int, cursor, j)])
}

/// Every cell of `cells` is in `taken`.
pub open spec fn all_taken(cells: Seq<GridPos>, taken: Set<GridPos>) -> bool {
    forall|j: int| 0 <= j < cells.len() ==> taken.contains(#[trigger] cells[j])
}

/// What a pool of cells holds: its cells in order, those of them that are
/// reserved, and the place where the next scan for a free cell begins.
#[verifier::ext_equal]
pub struct PoolState {
    pub cells: Seq<GridPos>,
    pub taken: Set<GridPos>,
    pub cursor: int,
}

impl PoolState {
    /// The place of the cell that the next reservation hands out: the first
    /// free cell at or after the cursor, going round; nothing when every
    /// cell is taken.
    pub open spec fn pick(self) -> Option<int> {
        if exists|i: int| first_free_at(self.cells, self.taken, self.cursor, i) {
            Some(
                wrap_index(
                    self.cells.len() as int,
                    self.cursor,
                    choose|i: int| first_free_at(self.cells, self.taken, self.cursor, i),
                ),
            )
        } else {
            None
        }
    }

    /// The cell that the next reservation hands out.
    pub open spec fn picked(self) -> Option<GridPos> {
        match self.pick() {
            Some(at) => Some(self.cells[at]),
            None => None,
        }
    }

    /// The pool after the next reservation: the picked cell is taken and
    /// the cursor stands behind it; with nothing to pick, nothing changes.
    pub open spec fn reserved(self) -> PoolState {
        match self.pick() {
            Some(at) => PoolState { cells: self.cells, taken: self.taken.insert(self.cells[at]), cursor: at + 1 },
            None => self,
        }
    }

    /// The pool after `pos` was made free.
    pub open spec fn released(self, pos: GridPos) -> PoolState {
        PoolState { cells: self.cells, taken: self.taken.remove(pos), cursor: self.cursor }
    }

    /// The cursor lies within the list, and only cells of the list are
    /// taken.
    pub open spec fn valid(self) -> bool {
        &&& 0 <= self.cursor <= self.cells.len()
        &&& forall|p: GridPos| #[trigger] self.taken.contains(p) ==> self.cells.contains(p)
    }

    /// The first free cell at or after the cursor is one cell only.
    pub proof fn lemma_first_free_unique(self, i: int, j: int)
        requires
            first_free_at(self.cells, self.taken, self.cursor, i),
            first_free_at(self.cells, self.taken, self.cursor, j),
        ensures
            i == j,
    {
        if i < j {
            assert(self.taken.contains(self.cells[wrap_index(self.cells.len() as int, self.cursor, i)]));
        }
        if j < i {
            assert(self.taken.contains(self.cells[wrap_index(self.cells.len() as int, self.cursor, j)]));
        }
    }

    /// Where the first free cell lies `i` places after the cursor, that
    /// cell is the one that is picked.
    pub proof fn lemma_pick_at(self, i: int)
        requires
            first_free_at(self.cells, self.taken, self.cursor, i),
        ensures
            self.pick() == Some(wrap_index(self.cells.len() as int, self.cursor, i)),
    {
        let k = choose|k: int| first_free_at(self.cells, self.taken, self.cursor, k);
        self.lemma_first_free_unique(i, k);
    }

    /// A valid pool has nothing to pick exactly when every cell is taken;
    /// what it picks is a cell of the pool that is free.
    pub proof fn lemma_pick(self)
        requires
            self.valid(),
        ensures
            self.pick().is_none() <==> all_taken(self.cells, self.taken),
            self.pick().is_some() ==> 0 <= self.pick().unwrap() < self.cells.len() && !self.taken.contains(
                self.picked().unwrap(),
            ) && self.cells.contains(self.picked().unwrap()),
            self.reserved().valid(),
    {
        let len = self.cells.len() as int;
        if exists|i: int| first_free_at(self.cells, self.taken, self.cursor, i) {
            let i = choose|i: int| first_free_at(self.cells, self.taken, self.cursor, i);
            let at = wrap_index(len, self.cursor, i);
            assert(!self.taken.contains(self.cells[at]));
            assert(self.cells.contains(self.cells[at]));
            let after = self.reserved();
            assert forall|p: GridPos| #[trigger] after.taken.contains(p) implies after.cells.contains(p) by {
                if p != self.cells[at] {
                    assert(self.taken.contains(p));
                }
            }
        } else {
            if !all_taken(self.cells, self.taken) {
                let j = choose|j: int| 0 <= j < self.cells.len() && !self.taken.contains(self.cells[j]);
                lemma_free_cell_found(self.cells, self.taken, self.cursor, len);
            }
        }
    }
}

/// Among the first `n` places after the cursor, either all cells are taken
/// or one of them is the first free one.
pub proof fn lemma_free_cell_found(cells: Seq<GridPos>, taken: Set<GridPos>, cursor: int, n: int)
    requires
        0 <= cursor <= cells.len(),
        0 <= n <= cells.len(),
    ensures
        (exists|i: int| first_free_at(cells, taken, cursor, i)) || (forall|j: int|
            0 <= j < n ==> taken.contains(#[trigger] cells[wrap_index(cells.len() as int, cursor, j)])),
        n == cells.len() ==> (exists|i: int| first_free_at(cells, taken, cursor, i)) || all_taken(
            cells,
            taken,
        ),
    decreases n,
{
    let len = cells.len() as int;
    if n > 0 {
        lemma_free_cell_found(cells, taken, cursor, n - 1);
        if !(exists|i: int| first_free_at(cells, taken, cursor, i)) {
            if !taken.contains(cells[wrap_index(len, cursor, n - 1)]) {
                assert(first_free_at(cells, taken, cursor, n - 1));
            }
        }
    }
    if n == len && !(exists|i: int| first_free_at(cells, taken, cursor, i)) {
        assert forall|j: int| 0 <= j < len implies taken.contains(#[trigger] cells[j]) by {
            let k = if j >= cursor {
                j - cursor
            } else {
                j + len - cursor
            };
            assert(wrap_index(len, cursor, k) == j);
        }
    }
}

/// A list of cells of which each can be reserved by one holder at a time,
/// handed out in rotation.
pub struct CellPool {
    cells: Vec<GridPos>,
    reserved: FxHashSet<u64>,
    cursor: usize,
}

impl CellPool {
    /// What the pool holds.
    pub closed spec fn state(&self) -> PoolState {
        PoolState {
            cells: self.cells@,
            taken: Set::new(|p: GridPos| self.reserved@.contains(pos_code(p))),
            cursor: self.cursor as int,
        }
    }

    /// The cursor lies within the list, and only cells of the pool are
    /// reserved.
    pub open spec fn wf(&self) -> bool {
        self.state().valid()
    }

    /// A pool of the given cells, none reserved.
    pub fn new(cells: Vec<GridPos>) -> (pool: CellPool)
        ensures
            pool.wf(),
            pool.state() == (PoolState { cells: cells@, taken: Set::<GridPos>::empty(), cursor: 0 }),
    {
        let pool = CellPool { cells, reserved: FxHashSet::default(), cursor: 0 };
        assert(pool.state() =~= (PoolState { cells: cells@, taken: Set::<GridPos>::empty(), cursor: 0 }));
        pool
    }

    /// The cells of the pool, in order.
    pub fn as_vec(&self) -> (cells: &Vec<GridPos>)
        ensures
            cells@ == self.state().cells,
    {
        &self.cells
    }

    /// Whether `pos` is reserved now.
    pub fn is_reserved(&self, pos: GridPos) -> (reserved: bool)
        ensures
            reserved == self.state().taken.contains(pos),
    {
        set_contains(&self.reserved, pos.encode())
    }

    /// Reserves the first free cell at or after the cursor, going round,
    /// and moves the cursor past it. Nothing is returned, and nothing
    /// changes, when every cell is reserved.
    pub fn reserve(&mut self) -> (cell: Option<GridPos>)
        requires
            old(self).wf(),
        ensures
            final(self).wf(),
            cell == old(self).state().picked(),
            final(self).state() == old(self).state().reserved(),
            cell.is_none() <==> all_taken(old(self).state().cells, old(self).state().taken),
    {
        proof {
            old(self).state().lemma_pick();
        }
        let len: usize = self.cells.len();
        let mut i: usize = 0;
        while i < len
            invariant
                *self == *old(self),
                self.wf(),
                len == self.cells@.len(),
                i <= len,
                forall|j: int|
                    0 <= j < i ==> self.state().taken.contains(
                        #[trigger] self.cells@[wrap_index(len as int, self.cursor as int, j)],
                    ),
            decreases len - i,
        {
            let idx: usize = if i < len - self.cursor {
                self.cursor + i
            } else {
                i - (len - self.cursor)
            };
            assert(idx == wrap_index(len as int, self.cursor as int, i as int));
            let pos = self.cells[idx];
            if !set_contains(&self.reserved, pos.encode()) {
                set_insert(&mut self.reserved, pos.encode());
                self.cursor = idx + 1;
                proof {
                    let before = old(self).state();
                    assert forall|p: GridPos| pos_code(p) == pos_code(pos) implies p == pos by {
                        lemma_pos_code_injective(p, pos);
                    }
                    assert(first_free_at(before.cells, before.taken, before.cursor, i as int));
                    let k = choose|k: int| first_free_at(before.cells, before.taken, before.cursor, k);
                    before.lemma_first_free_unique(i as int, k);
                    assert(self.state() =~= before.reserved());
                }
                return Some(pos);
            }
            i += 1;
        }
        proof {
            let before = old(self).state();
            if exists|k: int| first_free_at(before.cells, before.taken, before.cursor, k) {
                let k = choose|k: int| first_free_at(before.cells, before.taken, before.cursor, k);
                assert(before.taken.contains(before.cells[wrap_index(len as int, before.cursor, k)]));
            }
        }
        None
    }

    /// Makes `pos` free again; a cell that is not reserved stays as it is.
    pub fn release(&mut self, pos: GridPos)
        requires
            old(self).wf(),
        ensures
            final(self).wf(),
            final(self).state() == old(self).state().released(pos),
    {
        set_remove(&mut self.reserved, pos.encode());
        proof {
            assert forall|p: GridPos| pos_code(p) == pos_code(pos) implies p == pos by {
                lemma_pos_code_injective(p, pos);
            }
            assert(self.state() =~= old(self).state().released(pos));
        }
    }
}

/// No cell of `a` is a cell of `b`.
pub open spec fn disjoint(a: Seq<GridPos>, b: Seq<GridPos>) -> bool {
    forall|i: int, j: int| 0 <= i < a.len() && 0 <= j < b.len() ==> #[trigger] a[i] != #[trigger] b[j]
}

/// No cell of `cells` lies in a rack of `racks`.
pub open spec fn clear_of(cells: Seq<GridPos>, racks: Seq<Rack>) -> bool {
    forall|i: int| 0 <= i < cells.len() ==> !racks_cover(racks, #[trigger] cells[i])
}

/// The three lists of cells share no cell, and none of their cells lies in
/// a rack.
pub open spec fn layout_ok(
    spawn: Seq<GridPos>,
    storage: Seq<GridPos>,
    cargo: Seq<GridPos>,
    racks: Seq<Rack>,
) -> bool {
    &&& disjoint(spawn, storage)
    &&& disjoint(spawn, cargo)
    &&& disjoint(storage, cargo)
    &&& clear_of(spawn, racks)
    &&& clear_of(storage, racks)
    &&& clear_of(cargo, racks)
}

/// Decides whether two lists of cells share no cell.
pub fn cells_disjoint(a: &Vec<GridPos>, b: &Vec<GridPos>) -> (apart: bool)
    ensures
        apart == disjoint(a@, b@),
{
    let mut i: usize = 0;
    while i < a.len()
        invariant
            i <= a@.len(),
            forall|k: int, j: int| 0 <= k < i && 0 <= j < b@.len() ==> #[trigger] a@[k] != #[trigger] b@[j],
        decreases a@.len() - i,
    {
        let mut j: usize = 0;
        while j < b.len()
            invariant
                i < a@.len(),
                j <= b@.len(),
                forall|l: int| 0 <= l < j ==> a@[i as int] != #[trigger] b@[l],
            decreases b@.len() - j,
        {
            if a[i] == b[j] {
                return false;
            }
            j += 1;
        }
        i += 1;
    }
    true
}

/// Decides whether no cell of `cells` lies in a rack of `racks`.
pub fn cells_clear_of(cells: &Vec<GridPos>, racks: &Vec<Rack>) -> (clear: bool)
    ensures
        clear == clear_of(cells@, racks@),
{
    let mut i: usize = 0;
    while i < cells.len()
        invariant
            i <= cells@.len(),
            forall|k: int| 0 <= k < i ==> !racks_cover(racks@, #[trigger] cells@[k]),
        decreases cells@.len() - i,
    {
        if any_rack_contains(racks, cells[i]) {
            return false;
        }
        i += 1;
    }
    true
}

/// The `i`-th spawn point of the default warehouse: six columns along the
/// left edge, a point every fourth row.
pub open spec fn default_spawn(i: int) -> GridPos {
    GridPos { x: (1 + i / 14) as i32, y: (2 + 4 * (i % 14)) as i32 }
}

/// The `i`-th cargo cell of the default warehouse: six columns along the
/// right edge, a cell every third row.
pub open spec fn default_cargo(i: int) -> GridPos {
    GridPos { x: (73 + i / 19) as i32, y: (2 + 3 * (i % 19)) as i32 }
}

/// The `i`-th rack of the default warehouse: three rows of twelve racks,
/// each two cells wide and twelve long.
pub open spec fn default_rack(i: int) -> Rack {
    Rack {
        start: GridPos { x: (11 + 5 * (i % 12)) as i32, y: (3 + 15 * (i / 12)) as i32 },
        end: GridPos { x: (12 + 5 * (i % 12)) as i32, y: (14 + 15 * (i / 12)) as i32 },
    }
}

/// The `i`-th storage cell of the default warehouse: the cells to the left
/// and to the right of every rack, column by column, each column from low
/// to high.
pub open spec fn default_storage(i: int) -> GridPos {
    let column = i / 36;
    let place = i % 36;
    GridPos {
        x: (10 + 5 * (column / 2) + 3 * (column % 2)) as i32,
        y: (3 + 15 * (place / 12) + place % 12) as i32,
    }
}

/// The zones of the warehouse: where agents appear, where loads are picked
/// up and where they are dropped, and the racks in between.
pub struct WarehouseZones {
    spawn_points: Vec<GridPos>,
    storage: CellPool,
    cargo: CellPool,
    racks: Vec<Rack>,
    spawn_index: usize,
}

impl Default for WarehouseZones {
    /// The zones of the default warehouse, with nothing reserved.
    fn default() -> (z: WarehouseZones)
        ensures
            z.wf(),
            z.spawn_seq() == Seq::new(84, |i: int| default_spawn(i)),
            z.rack_seq() == Seq::new(36, |i: int| default_rack(i)),
            z.spawn_cursor() == 0,
            z.storage_state() == (PoolState {
                cells: Seq::new(864, |i: int| default_storage(i)),
                taken: Set::<GridPos>::empty(),
                cursor: 0,
            }),
            z.cargo_state() == (PoolState {
                cells: Seq::new(114, |i: int| default_cargo(i)),
                taken: Set::<GridPos>::empty(),
                cursor: 0,
            }),
    {
        let mut spawn_points: Vec<GridPos> = Vec::new();
        let mut x: i32 = 1;
        while x < SPAWN_ZONE_WIDTH as i32 - 1
            invariant
                1 <= x <= 7,
                spawn_points@.len() == (x - 1) * 14,
                forall|j: int| 0 <= j < spawn_points@.len() ==> #[trigger] spawn_points@[j] == default_spawn(j),
            decreases 7 - x,
        {
            let mut y: i32 = 2;
            while y < GRID_HEIGHT as i32 - 2
                invariant
                    1 <= x < 7,
                    2 <= y <= 58,
                    (y - 2) % 4 == 0,
                    spawn_points@.len() == (x - 1) * 14 + (y - 2) / 4,
                    forall|j: int|
                        0 <= j < spawn_points@.len() ==> #[trigger] spawn_points@[j] == default_spawn(j),
                decreases 58 - y,
            {
                let ghost at: int = spawn_points@.len() as int;
                let cell = GridPos::new(x, y);
                proof {
                    assert(at / 14 == x - 1 && at % 14 == (y - 2) / 4);
                    assert(cell == default_spawn(at));
                }
                spawn_points.push(cell);
                y += 4;
            }
            x += 1;
        }
        let mut cargo_cells: Vec<GridPos> = Vec::new();
        let mut x: i32 = (GRID_WIDTH - CARGO_ZONE_WIDTH + 1) as i32;
        while x < GRID_WIDTH as i32 - 1
            invariant
                73 <= x <= 79,
                cargo_cells@.len() == (x - 73) * 19,
                forall|j: int| 0 <= j < cargo_cells@.len() ==> #[trigger] cargo_cells@[j] == default_cargo(j),
            decreases 79 - x,
        {
            let mut y: i32 = 2;
            while y < GRID_HEIGHT as i32 - 2
                invariant
                    73 <= x < 79,
                    2 <= y <= 59,
                    (y - 2) % 3 == 0,
                    cargo_cells@.len() == (x - 73) * 19 + (y - 2) / 3,
                    forall|j: int|
                        0 <= j < cargo_cells@.len() ==> #[trigger] cargo_cells@[j] == default_cargo(j),
                decreases 59 - y,
            {
                let ghost at: int = cargo_cells@.len() as int;
                let cell = GridPos::new(x, y);
                proof {
                    assert(at / 19 == x - 73 && at % 19 == (y - 2) / 3);
                    assert(cell == default_cargo(at));
                }
                cargo_cells.push(cell);
                y += 3;
            }
            x += 1;
        }
        let racks = default_racks();
        let storage_cells = default_storage_cells();
        proof {
            assert(spawn_points@ =~= Seq::new(84, |i: int| default_spawn(i)));
            assert(cargo_cells@ =~= Seq::new(114, |i: int| default_cargo(i)));
            lemma_default_layout_ok();
        }
        WarehouseZones {
            spawn_points,
            storage: CellPool::new(storage_cells),
            cargo: CellPool::new(cargo_cells),
            racks,
            spawn_index: 0,
        }
    }
}

/// Builds the racks of the default warehouse, row by row.
fn default_racks() -> (racks: Vec<Rack>)
    ensures
        racks@ == Seq::new(36, |i: int| default_rack(i)),
{
    let mut racks: Vec<Rack> = Vec::new();
    let mut row: i32 = 0;
    while row < 3
        invariant
            0 <= row <= 3,
            racks@.len() == row * 12,
            forall|j: int| 0 <= j < racks@.len() ==> #[trigger] racks@[j] == default_rack(j),
        decreases 3 - row,
    {
        let mut column: i32 = 0;
        while column < 12
            invariant
                0 <= row < 3,
                0 <= column <= 12,
                racks@.len() == row * 12 + column,
                forall|j: int| 0 <= j < racks@.len() ==> #[trigger] racks@[j] == default_rack(j),
            decreases 12 - column,
        {
            let ghost at: int = racks@.len() as int;
            let pitch: i32 = 2 + RACK_SPACING as i32;
            let row_pitch: i32 = RACK_LENGTH as i32 + AISLE_WIDTH as i32 + 1;
            assert(pitch == 5 && row_pitch == 15);
            let x: i32 = SPAWN_ZONE_WIDTH as i32 + 3 + pitch * column;
            let y: i32 = 3 + row_pitch * row;
            let rack = Rack { start: GridPos::new(x, y), end: GridPos::new(x + 1, y + RACK_LENGTH as i32 - 1) };
            proof {
                assert(at / 12 == row && at % 12 == column);
                assert(rack == default_rack(at));
            }
            racks.push(rack);
            column += 1;
        }
        row += 1;
    }
    assert(racks@ =~= Seq::new(36, |i: int| default_rack(i)));
    racks
}

/// Builds the storage cells of the default warehouse: the cells beside the
/// racks, ordered by column and then by row.
fn default_storage_cells() -> (cells: Vec<GridPos>)
    ensures
        cells@ == Seq::new(864, |i: int| default_storage(i)),
{
    let mut cells: Vec<GridPos> = Vec::new();
    let mut column: i32 = 0;
    while column < 24
        invariant
            0 <= column <= 24,
            cells@.len() == column * 36,
            forall|j: int| 0 <= j < cells@.len() ==> #[trigger] cells@[j] == default_storage(j),
        decreases 24 - column,
    {
        let pitch: i32 = 2 + RACK_SPACING as i32;
        let row_pitch: i32 = RACK_LENGTH as i32 + AISLE_WIDTH as i32 + 1;
        assert(pitch == 5 && row_pitch == 15);
        let x: i32 = SPAWN_ZONE_WIDTH as i32 + 2 + pitch * (column / 2) + 3 * (column % 2);
        let mut place: i32 = 0;
        while place < 36
            invariant
                0 <= column < 24,
                0 <= place <= 36,
                x == 10 + 5 * (column / 2) + 3 * (column % 2),
                row_pitch == 15,
                cells@.len() == column * 36 + place,
                forall|j: int| 0 <= j < cells@.len() ==> #[trigger] cells@[j] == default_storage(j),
            decreases 36 - place,
        {
            let ghost at: int = cells@.len() as int;
            let row: i32 = place / RACK_LENGTH as i32;
            let cell = GridPos::new(x, 3 + row_pitch * row + place % RACK_LENGTH as i32);
            proof {
                assert(at == column * 36 + place);
                assert(at / 36 == column && at % 36 == place);
                assert(cell == default_storage(at));
            }
            cells.push(cell);
            place += 1;
        }
        column += 1;
    }
    assert(cells@ =~= Seq::new(864, |i: int| default_storage(i)));
    cells
}

/// In the default warehouse the three lists of cells share no cell and no
/// cell lies in a rack.
pub proof fn lemma_default_layout_ok()
    ensures
        layout_ok(
            Seq::new(84, |i: int| default_spawn(i)),
            Seq::new(864, |i: int| default_storage(i)),
            Seq::new(114, |i: int| default_cargo(i)),
            Seq::new(36, |i: int| default_rack(i)),
        ),
{
    let spawn = Seq::new(84, |i: int| default_spawn(i));
    let storage = Seq::new(864, |i: int| default_storage(i));
    let cargo = Seq::new(114, |i: int| default_cargo(i));
    let racks = Seq::new(36, |i: int| default_rack(i));
    assert forall|i: int| 0 <= i < 84 implies 1 <= (#[trigger] spawn[i]).x <= 6 by {}
    assert forall|i: int| 0 <= i < 864 implies 10 <= (#[trigger] storage[i]).x <= 68 && (storage[i].x
        % 5 == 0 || storage[i].x % 5 == 3) by {}
    assert forall|i: int| 0 <= i < 114 implies 73 <= (#[trigger] cargo[i]).x <= 78 by {}
    assert forall|k: int| 0 <= k < 36 implies 11 <= (#[trigger] racks[k]).start.x && racks[k].end.x
        <= 67 && racks[k].start.x % 5 == 1 && racks[k].end.x == racks[k].start.x + 1 by {}
    assert(disjoint(spawn, storage));
    assert(disjoint(spawn, cargo));
    assert(disjoint(storage, cargo));
    assert(clear_of(spawn, racks));
    assert(clear_of(cargo, racks));
    assert(clear_of(storage, racks));
}

impl WarehouseZones {
    /// The spawn points, in order.
    pub closed spec fn spawn_seq(&self) -> Seq<GridPos> {
        self.spawn_points@
    }

    /// The pool of storage cells.
    pub closed spec fn storage_state(&self) -> PoolState {
        self.storage.state()
    }

    /// The pool of cargo cells.
    pub closed spec fn cargo_state(&self) -> PoolState {
        self.cargo.state()
    }

    /// The racks.
    pub closed spec fn rack_seq(&self) -> Seq<Rack> {
        self.racks@
    }

    /// The place of the spawn point that is handed out next.
    pub closed spec fn spawn_cursor(&self) -> int {
        self.spawn_index as int
    }

    /// The storage cells, in order.
    pub open spec fn storage_seq(&self) -> Seq<GridPos> {
        self.storage_state().cells
    }

    /// The cargo cells, in order.
    pub open spec fn cargo_seq(&self) -> Seq<GridPos> {
        self.cargo_state().cells
    }

    /// The storage cells that are reserved now.
    pub open spec fn reserved_storage(&self) -> Set<GridPos> {
        self.storage_state().taken
    }

    /// The cargo cells that are reserved now.
    pub open spec fn reserved_cargo(&self) -> Set<GridPos> {
        self.cargo_state().taken
    }

    /// The lists share no cell, no cell lies in a rack, only cells of a
    /// list are reserved from it, and the cursors lie within their lists.
    pub open spec fn wf(&self) -> bool {
        &&& self.storage_state().valid()
        &&& self.cargo_state().valid()
        &&& layout_ok(self.spawn_seq(), self.storage_seq(), self.cargo_seq(), self.rack_seq())
        &&& 0 <= self.spawn_cursor()
        &&& (self.spawn_cursor() < self.spawn_seq().len() || self.spawn_cursor() == 0)
    }

    /// The zones `other` have the same spawn points and racks as these, and
    /// the same place in the round of spawn points.
    pub open spec fn same_floor(&self, other: &WarehouseZones) -> bool {
        &&& self.spawn_seq() == other.spawn_seq()
        &&& self.rack_seq() == other.rack_seq()
        &&& self.spawn_cursor() == other.spawn_cursor()
    }

    /// Zones of the given cells and racks with nothing reserved, if the
    /// three lists share no cell and no cell lies in a rack.
    pub fn from_cells(
        spawn_points: Vec<GridPos>,
        storage_cells: Vec<GridPos>,
        cargo_cells: Vec<GridPos>,
        racks: Vec<Rack>,
    ) -> (zones: Option<WarehouseZones>)
        ensures
            zones.is_some() == layout_ok(spawn_points@, storage_cells@, cargo_cells@, racks@),
            zones.is_some() ==> {
                let z = zones.unwrap();
                &&& z.wf()
                &&& z.spawn_seq() == spawn_points@
                &&& z.rack_seq() == racks@
                &&& z.spawn_cursor() == 0
                &&& z.storage_state() == (PoolState {
                    cells: storage_cells@,
                    taken: Set::<GridPos>::empty(),
                    cursor: 0,
                })
                &&& z.cargo_state() == (PoolState {
                    cells: cargo_cells@,
                    taken: Set::<GridPos>::empty(),
                    cursor: 0,
                })
            },
    {
        if !cells_disjoint(&spawn_points, &storage_cells) {
            return None;
        }
        if !cells_disjoint(&spawn_points, &cargo_cells) {
            return None;
        }
        if !cells_disjoint(&storage_cells, &cargo_cells) {
            return None;
        }
        if !cells_clear_of(&spawn_points, &racks) {
            return None;
        }
        if !cells_clear_of(&storage_cells, &racks) {
            return None;
        }
        if !cells_clear_of(&cargo_cells, &racks) {
            return None;
        }
        Some(
            WarehouseZones {
                spawn_points,
                storage: CellPool::new(storage_cells),
                cargo: CellPool::new(cargo_cells),
                racks,
                spawn_index: 0,
            },
        )
    }

    /// The spawn points, in order.
    pub fn spawn_points(&self) -> (cells: &Vec<GridPos>)
        ensures
            cells@ == self.spawn_seq(),
    {
        &self.spawn_points
    }

    /// The storage cells, in order.
    pub fn storage_cells(&self) -> (cells: &Vec<GridPos>)
        ensures
            cells@ == self.storage_seq(),
    {
        self.storage.as_vec()
    }

    /// The cargo cells, in order.
    pub fn cargo_cells(&self) -> (cells: &Vec<GridPos>)
        ensures
            cells@ == self.cargo_seq(),
    {
        self.cargo.as_vec()
    }

    /// The racks.
    pub fn racks(&self) -> (racks: &Vec<Rack>)
        ensures
            racks@ == self.rack_seq(),
    {
        &self.racks
    }

    /// Whether the storage cell `pos` is reserved now.
    pub fn is_storage_reserved(&self, pos: GridPos) -> (reserved: bool)
        ensures
            reserved == self.reserved_storage().contains(pos),
    {
        self.storage.is_reserved(pos)
    }

    /// Whether the cargo cell `pos` is reserved now.
    pub fn is_cargo_reserved(&self, pos: GridPos) -> (reserved: bool)
        ensures
            reserved == self.reserved_cargo().contains(pos),
    {
        self.cargo.is_reserved(pos)
    }

    /// Hands out the spawn points in turn, beginning again after the last.
    pub fn next_spawn(&mut self) -> (pos: GridPos)
        requires
            old(self).wf(),
            old(self).spawn_seq().len() > 0,
        ensures
            final(self).wf(),
            pos == old(self).spawn_seq()[old(self).spawn_cursor()],
            final(self).spawn_cursor() == (if old(self).spawn_cursor() + 1 < old(self).spawn_seq().len() {
                old(self).spawn_cursor() + 1
            } else {
                0
            }),
            final(self).spawn_seq() == old(self).spawn_seq(),
            final(self).rack_seq() == old(self).rack_seq(),
            final(self).storage_state() == old(self).storage_state(),
            final(self).cargo_state() == old(self).cargo_state(),
    {
        let count: usize = self.spawn_points.len();
        let pos = self.spawn_points[self.spawn_index];
        if self.spawn_index + 1 < count {
            self.spawn_index = self.spawn_index + 1;
        } else {
            self.spawn_index = 0;
        }
        pos
    }

    /// Reserves a free storage cell, the first at or after the cursor;
    /// nothing when every storage cell is reserved.
    pub fn reserve_storage(&mut self) -> (cell: Option<GridPos>)
        requires
            old(self).wf(),
        ensures
            final(self).wf(),
            final(self).same_floor(old(self)),
            cell == old(self).storage_state().picked(),
            final(self).storage_state() == old(self).storage_state().reserved(),
            final(self).cargo_state() == old(self).cargo_state(),
            cell.is_none() <==> all_taken(old(self).storage_seq(), old(self).reserved_storage()),
    {
        self.storage.reserve()
    }

    /// Reserves a free cargo cell, the first at or after the cursor;
    /// nothing when every cargo cell is reserved.
    pub fn reserve_cargo(&mut self) -> (cell: Option<GridPos>)
        requires
            old(self).wf(),
        ensures
            final(self).wf(),
            final(self).same_floor(old(self)),
            cell == old(self).cargo_state().picked(),
            final(self).cargo_state() == old(self).cargo_state().reserved(),
            final(self).storage_state() == old(self).storage_state(),
            cell.is_none() <==> all_taken(old(self).cargo_seq(), old(self).reserved_cargo()),
    {
        self.cargo.reserve()
    }

    /// Frees the storage cell `pos`; freeing a free cell changes nothing.
    pub fn release_storage(&mut self, pos: GridPos)
        requires
            old(self).wf(),
        ensures
            final(self).wf(),
            final(self).same_floor(old(self)),
            final(self).storage_state() == old(self).storage_state().released(pos),
            final(self).cargo_state() == old(self).cargo_state(),
    {
        self.storage.release(pos);
    }

    /// Frees the cargo cell `pos`; freeing a free cell changes nothing.
    pub fn release_cargo(&mut self, pos: GridPos)
        requires
            old(self).wf(),
        ensures
            final(self).wf(),
            final(self).same_floor(old(self)),
            final(self).cargo_state() == old(self).cargo_state().released(pos),
            final(self).storage_state() == old(self).storage_state(),
    {
        self.cargo.release(pos);
    }

    /// Whether `pos` lies in a rack.
    pub fn is_rack(&self, pos: GridPos) -> (inside: bool)
        ensures
            inside == racks_cover(self.rack_seq(), pos),
    {
        any_rack_contains(&self.racks, pos)
    }
}

} // verus!
