//! Dense world grids: cell flags, bug occupancy, walls, spawners and reservations.

use vstd::prelude::*;
use crate::core_types::geometry::CellCoord;
use crate::core_types::fields::{cell_offset, row_major, ReservationClaim};
use crate::core_types::ordering::{is_stable_key_order, stable_sort_by_key, Keyed};
use crate::core_types::values::BugId;
use crate::core_types::views::{walls_strictly_ordered, Wall, WallView};
use super::grid_math::{in_grid, lemma_row_major};

verus! {

/// Number of cells of a grid, which must be addressable.
pub open spec fn addressable(columns: u32, rows: u32) -> bool {
    columns * rows <= usize::MAX
}

/// Row-major offset of an in-bounds cell of a grid whose cell vector has
/// `columns * rows` entries.
fn offset_of(cell: CellCoord, columns: u32, rows: u32, len: usize) -> (r: usize)
    requires
        in_grid(cell, columns as int, rows as int),
        len == columns * rows,
    ensures
        r == row_major(cell, columns as int),
        r < len,
{
    let offset = cell_offset(cell, columns, rows);
    offset as usize
}

/// One flag per cell, stored in row-major order.
#[derive(Clone, Debug)]
pub struct BitGrid {
    pub columns: u32,
    pub rows: u32,
    pub cells: Vec<bool>,
}

impl BitGrid {
    /// The cell vector has one entry per cell.
    pub open spec fn well_formed(&self) -> bool {
        self.cells@.len() == self.columns * self.rows
    }

    /// Whether the flag of `cell` is set (cells outside the grid never are).
    pub open spec fn has(&self, cell: CellCoord) -> bool {
        in_grid(cell, self.columns as int, self.rows as int) && self.cells@[row_major(cell, self.columns as int)]
    }

    /// A grid with every flag cleared.
    pub fn new(columns: u32, rows: u32) -> (g: Self)
        requires
            addressable(columns, rows),
        ensures
            g.well_formed(),
            g.columns == columns,
            g.rows == rows,
            forall|c: CellCoord| !g.has(c),
    {
        let n: usize = (columns as u64 * rows as u64) as usize;
        let cells = vec![false; n];
        let g = Self { columns, rows, cells };
        proof {
            assert forall|c: CellCoord| !g.has(c) by {
                if in_grid(c, columns as int, rows as int) {
                    lemma_row_major(c, c, columns as int, rows as int);
                }
            }
        }
        g
    }

    /// Reports whether the flag of `cell` is set.
    pub fn contains(&self, cell: CellCoord) -> (b: bool)
        requires
            self.well_formed(),
        ensures
            b == self.has(cell),
    {
        if cell.column >= self.columns || cell.row >= self.rows {
            return false;
        }
        let offset = offset_of(cell, self.columns, self.rows, self.cells.len());
        self.cells[offset]
    }

    /// Sets or clears the flag of `cell`; cells outside the grid are ignored.
    pub fn assign(&mut self, cell: CellCoord, value: bool)
        requires
            old(self).well_formed(),
        ensures
            final(self).well_formed(),
            final(self).columns == old(self).columns,
            final(self).rows == old(self).rows,
            forall|c: CellCoord| #[trigger] final(self).has(c) == if c == cell
                && in_grid(cell, old(self).columns as int, old(self).rows as int) {
                value
            } else {
                old(self).has(c)
            },
    {
        if cell.column >= self.columns || cell.row >= self.rows {
            return;
        }
        let offset = offset_of(cell, self.columns, self.rows, self.cells.len());
        let ghost before = *self;
        self.cells.set(offset, value);
        proof {
            assert forall|c: CellCoord| #[trigger] self.has(c) == if c == cell {
                value
            } else {
                before.has(c)
            } by {
                if in_grid(c, self.columns as int, self.rows as int) {
                    lemma_row_major(c, cell, self.columns as int, self.rows as int);
                }
            }
        }
    }

    /// Sets the flag of `cell`.
    pub fn set(&mut self, cell: CellCoord)
        requires
            old(self).well_formed(),
        ensures
            final(self).well_formed(),
            final(self).columns == old(self).columns,
            final(self).rows == old(self).rows,
            forall|c: CellCoord| #[trigger] final(self).has(c) == ((c == cell && in_grid(
                cell,
                old(self).columns as int,
                old(self).rows as int,
            )) || old(self).has(c)),
    {
        self.assign(cell, true);
    }

    /// Clears the flag of `cell`.
    pub fn clear(&mut self, cell: CellCoord)
        requires
            old(self).well_formed(),
        ensures
            final(self).well_formed(),
            final(self).columns == old(self).columns,
            final(self).rows == old(self).rows,
            forall|c: CellCoord| #[trigger] final(self).has(c) == (c != cell && old(self).has(c)),
    {
        self.assign(cell, false);
    }

    /// Dimensions of the grid.
    pub fn dimensions(&self) -> (r: (u32, u32))
        ensures
            r == (self.columns, self.rows),
    {
        (self.columns, self.rows)
    }
}

/// The bug (if any) standing on each cell, in row-major order.
#[derive(Clone, Debug)]
pub struct OccupancyGrid {
    pub columns: u32,
    pub rows: u32,
    pub cells: Vec<Option<BugId>>,
}

impl OccupancyGrid {
    /// The cell vector has one entry per cell.
    pub open spec fn well_formed(&self) -> bool {
        self.cells@.len() == self.columns * self.rows
    }

    /// The bug standing on `cell`, `None` for free cells and cells outside the grid.
    pub open spec fn occupant(&self, cell: CellCoord) -> Option<BugId> {
        if in_grid(cell, self.columns as int, self.rows as int) {
            self.cells@[row_major(cell, self.columns as int)]
        } else {
            None
        }
    }

    /// An empty grid.
    pub fn new(columns: u32, rows: u32) -> (g: Self)
        requires
            addressable(columns, rows),
        ensures
            g.well_formed(),
            g.columns == columns,
            g.rows == rows,
            forall|c: CellCoord| g.occupant(c) is None,
    {
        let n: usize = (columns as u64 * rows as u64) as usize;
        let cells: Vec<Option<BugId>> = vec![None; n];
        let g = Self { columns, rows, cells };
        proof {
            assert forall|c: CellCoord| g.occupant(c) is None by {
                if in_grid(c, columns as int, rows as int) {
                    lemma_row_major(c, c, columns as int, rows as int);
                }
            }
        }
        g
    }

    /// Frees every cell.
    pub fn clear(&mut self)
        requires
            old(self).well_formed(),
        ensures
            final(self).well_formed(),
            final(self).columns == old(self).columns,
            final(self).rows == old(self).rows,
            forall|c: CellCoord| final(self).occupant(c) is None,
    {
        let n = self.cells.len();
        let mut i: usize = 0;
        while i < n
            invariant
                n == self.cells@.len(),
                self.well_formed(),
                self.columns == old(self).columns,
                self.rows == old(self).rows,
                i <= n,
                forall|j: int| 0 <= j < i ==> self.cells@[j] is None,
            decreases n - i,
        {
            self.cells.set(i, None);
            i = i + 1;
        }
        proof {
            assert forall|c: CellCoord| self.occupant(c) is None by {
                if in_grid(c, self.columns as int, self.rows as int) {
                    lemma_row_major(c, c, self.columns as int, self.rows as int);
                }
            }
        }
    }

    /// Reports whether a bug may enter `cell`: true unless a bug stands on it.
    pub fn can_enter(&self, cell: CellCoord) -> (b: bool)
        requires
            self.well_formed(),
        ensures
            b == (self.occupant(cell) is None),
    {
        if cell.column >= self.columns || cell.row >= self.rows {
            return true;
        }
        let offset = offset_of(cell, self.columns, self.rows, self.cells.len());
        self.cells[offset].is_none()
    }

    /// Records `occupant` on `cell`; cells outside the grid are ignored.
    pub fn put(&mut self, cell: CellCoord, occupant: Option<BugId>)
        requires
            old(self).well_formed(),
        ensures
            final(self).well_formed(),
            final(self).columns == old(self).columns,
            final(self).rows == old(self).rows,
            forall|c: CellCoord| #[trigger] final(self).occupant(c) == if c == cell && in_grid(
                cell,
                old(self).columns as int,
                old(self).rows as int,
            ) {
                occupant
            } else {
                old(self).occupant(c)
            },
    {
        if cell.column >= self.columns || cell.row >= self.rows {
            return;
        }
        let offset = offset_of(cell, self.columns, self.rows, self.cells.len());
        let ghost before = *self;
        self.cells.set(offset, occupant);
        proof {
            assert forall|c: CellCoord| #[trigger] self.occupant(c) == if c == cell {
                occupant
            } else {
                before.occupant(c)
            } by {
                if in_grid(c, self.columns as int, self.rows as int) {
                    lemma_row_major(c, cell, self.columns as int, self.rows as int);
                }
            }
        }
    }

    /// Records `bug_id` on `cell`.
    pub fn occupy(&mut self, bug_id: BugId, cell: CellCoord)
        requires
            old(self).well_formed(),
        ensures
            final(self).well_formed(),
            final(self).columns == old(self).columns,
            final(self).rows == old(self).rows,
            forall|c: CellCoord| #[trigger] final(self).occupant(c) == if c == cell && in_grid(
                cell,
                old(self).columns as int,
                old(self).rows as int,
            ) {
                Some(bug_id)
            } else {
                old(self).occupant(c)
            },
    {
        self.put(cell, Some(bug_id));
    }

    /// Frees `cell`.
    pub fn vacate(&mut self, cell: CellCoord)
        requires
            old(self).well_formed(),
        ensures
            final(self).well_formed(),
            final(self).columns == old(self).columns,
            final(self).rows == old(self).rows,
            forall|c: CellCoord| #[trigger] final(self).occupant(c) == if c == cell {
                None
            } else {
                old(self).occupant(c)
            },
    {
        self.put(cell, None);
    }

    /// Row-major offset of `cell`, when it lies inside the grid.
    pub fn index(&self, cell: CellCoord) -> (r: Option<usize>)
        requires
            self.well_formed(),
        ensures
            r == if in_grid(cell, self.columns as int, self.rows as int) {
                Some(row_major(cell, self.columns as int) as usize)
            } else {
                None::<usize>
            },
    {
        if cell.column >= self.columns || cell.row >= self.rows {
            return None;
        }
        Some(offset_of(cell, self.columns, self.rows, self.cells.len()))
    }

    /// The occupancy of every cell in row-major order.
    pub fn cells(&self) -> (r: &[Option<BugId>])
        ensures
            r@ == self.cells@,
    {
        self.cells.as_slice()
    }

    /// Dimensions of the grid.
    pub fn dimensions(&self) -> (r: (u32, u32))
        ensures
            r == (self.columns, self.rows),
    {
        (self.columns, self.rows)
    }
}

/// Walls of the maze: a flag grid for lookups plus the ordered wall list.
#[derive(Clone, Debug)]
pub struct MazeWalls {
    pub grid: BitGrid,
    pub walls: Vec<Wall>,
}

impl MazeWalls {
    /// The flag grid has one entry per cell.
    pub open spec fn well_formed(&self) -> bool {
        self.grid.well_formed()
    }

    /// No walls on a grid of the given dimensions.
    pub fn new(columns: u32, rows: u32) -> (w: Self)
        requires
            addressable(columns, rows),
        ensures
            w.well_formed(),
            w.grid.columns == columns,
            w.grid.rows == rows,
            w.walls@.len() == 0,
            forall|c: CellCoord| !w.grid.has(c),
    {
        Self { grid: BitGrid::new(columns, rows), walls: Vec::new() }
    }

    /// Replaces the walls: the list holds each distinct wall once, ordered by
    /// column then row, and the flag grid marks the walls inside the grid.
    pub fn rebuild(&mut self, columns: u32, rows: u32, walls: Vec<Wall>)
        requires
            addressable(columns, rows),
        ensures
            final(self).well_formed(),
            final(self).grid.columns == columns,
            final(self).grid.rows == rows,
            walls_strictly_ordered(final(self).walls@),
            forall|w: Wall| final(self).walls@.contains(w) <==> walls@.contains(w),
            forall|c: CellCoord| #[trigger] final(self).grid.has(c) == (in_grid(c, columns as int, rows as int)
                && walls@.contains(Wall { cell: c })),
    {
        let view = WallView::from_walls(walls);
        let ordered = view.into_vec();
        let mut grid = BitGrid::new(columns, rows);
        let mut i: usize = 0;
        while i < ordered.len()
            invariant
                i <= ordered@.len(),
                grid.well_formed(),
                grid.columns == columns,
                grid.rows == rows,
                forall|c: CellCoord| #[trigger] grid.has(c) == (in_grid(c, columns as int, rows as int)
                    && ordered@.take(i as int).contains(Wall { cell: c })),
            decreases ordered@.len() - i,
        {
            let w = ordered[i];
            grid.set(w.cell);
            proof {
                assert(ordered@.take(i + 1) =~= ordered@.take(i as int).push(w));
                assert forall|c: CellCoord| #[trigger] grid.has(c) == (in_grid(c, columns as int, rows as int)
                    && ordered@.take(i + 1).contains(Wall { cell: c })) by {
                    if ordered@.take(i as int).contains(Wall { cell: c }) {
                        let q = choose|q: int| 0 <= q < i && #[trigger] ordered@.take(i as int)[q] == Wall { cell: c };
                        assert(ordered@.take(i + 1)[q] == Wall { cell: c });
                    }
                    if c == w.cell {
                        assert(ordered@.take(i + 1)[i as int] == w);
                        assert(w == Wall { cell: c });
                    }
                    if ordered@.take(i + 1).contains(Wall { cell: c }) {
                        let q = choose|q: int| 0 <= q < i + 1 && #[trigger] ordered@.take(i + 1)[q] == Wall { cell: c };
                        if q < i {
                            assert(ordered@.take(i as int)[q] == Wall { cell: c });
                        }
                    }
                }
            }
            i = i + 1;
        }
        assert(ordered@.take(ordered@.len() as int) =~= ordered@);
        self.grid = grid;
        self.walls = ordered;
    }

    /// Reports whether a wall stands on `cell`.
    pub fn contains(&self, cell: CellCoord) -> (b: bool)
        requires
            self.well_formed(),
        ensures
            b == self.grid.has(cell),
    {
        self.grid.contains(cell)
    }

    /// The walls, ordered by column then row.
    pub fn walls(&self) -> (r: &[Wall])
        ensures
            r@ == self.walls@,
    {
        self.walls.as_slice()
    }
}

/// Spawners ring the maze: every cell on the outer rim of the grid except the
/// two bottom rows (the visible wall row and the hidden exit row).
pub open spec fn is_spawner_cell(columns: u32, rows: u32, c: CellCoord) -> bool {
    &&& c.column < columns
    &&& c.row + 2 < rows
    &&& (c.row == 0 || c.column == 0 || c.column + 1 == columns)
}

/// The bug spawners, kept in column-then-row order without repetition.
#[derive(Clone, Debug)]
pub struct BugSpawnerRegistry {
    pub cells: Vec<CellCoord>,
}

/// Column-then-row order on cells.
pub open spec fn cells_strictly_ordered(s: Seq<CellCoord>) -> bool {
    forall|i: int, j: int| 0 <= i < j < s.len() ==> crate::core_types::views::cell_before(s[i], s[j])
}

impl BugSpawnerRegistry {
    /// No spawners.
    pub fn new() -> (r: Self)
        ensures
            r.cells@.len() == 0,
    {
        Self { cells: Vec::new() }
    }

    /// Assigns the spawners of a grid of the given dimensions: the outer rim
    /// without its two bottom rows.
    pub fn assign(&mut self, columns: u32, rows: u32)
        ensures
            cells_strictly_ordered(final(self).cells@),
            forall|c: CellCoord| final(self).cells@.contains(c) <==> is_spawner_cell(columns, rows, c),
    {
        let mut cells: Vec<CellCoord> = Vec::new();
        if rows >= 3 {
            let mut column: u32 = 0;
            while column < columns
                invariant
                    rows >= 3,
                    column <= columns,
                    cells_strictly_ordered(cells@),
                    forall|t: int| 0 <= t < cells@.len() ==> #[trigger] cells@[t].column < column,
                    forall|c: CellCoord| cells@.contains(c) <==> (is_spawner_cell(columns, rows, c)
                        && c.column < column),
                decreases columns - column,
            {
                let ghost start = cells@;
                let edge = column == 0 || column + 1 == columns;
                let mut row: u32 = 0;
                while row + 2 < rows
                    invariant
                        rows >= 3,
                        column < columns,
                        row + 2 <= rows,
                        edge == (column == 0 || column + 1 == columns),
                        cells_strictly_ordered(cells@),
                        cells@.len() >= start.len(),
                        forall|t: int| 0 <= t < start.len() ==> cells@[t] == start[t],
                        forall|t: int| 0 <= t < start.len() ==> #[trigger] start[t].column < column,
                        forall|t: int| start.len() <= t < cells@.len() ==> (#[trigger] cells@[t]).column == column
                            && cells@[t].row < row,
                        forall|c: CellCoord| cells@.contains(c) <==> (is_spawner_cell(columns, rows, c)
                            && (c.column < column || (c.column == column && c.row < row))),
                    decreases rows - row,
                {
                    if edge || row == 0 {
                        let cell = CellCoord { column, row };
                        let ghost before = cells@;
                        cells.push(cell);
                        proof {
                            assert forall|t: int| 0 <= t < before.len() implies crate::core_types::views::cell_before(
                                #[trigger] before[t],
                                cell,
                            ) by {
                                if t < start.len() {
                                    assert(before[t] == start[t]);
                                }
                            }
                            assert forall|a: int, b: int| 0 <= a < b < cells@.len() implies crate::core_types::views::cell_before(
                                cells@[a],
                                cells@[b],
                            ) by {
                                if b < before.len() {
                                    assert(cells@[a] == before[a]);
                                    assert(cells@[b] == before[b]);
                                } else {
                                    assert(cells@[a] == before[a]);
                                }
                            }
                            assert forall|t: int| start.len() <= t < cells@.len() implies (#[trigger] cells@[t]).column == column
                                && cells@[t].row < row + 1 by {
                                if t < before.len() {
                                    assert(cells@[t] == before[t]);
                                }
                            }
                            assert forall|c: CellCoord| cells@.contains(c) <==> (is_spawner_cell(columns, rows, c)
                                && (c.column < column || (c.column == column && c.row < row + 1))) by {
                                if c == cell {
                                    assert(cells@[cells@.len() - 1] == c);
                                } else if cells@.contains(c) {
                                    let q = choose|q: int| 0 <= q < cells@.len() && #[trigger] cells@[q] == c;
                                    assert(before[q] == c);
                                } else if before.contains(c) {
                                    let q = choose|q: int| 0 <= q < before.len() && #[trigger] before[q] == c;
                                    assert(cells@[q] == c);
                                }
                            }
                        }
                    }
                    row = row + 1;
                }
                proof {
                    assert forall|t: int| 0 <= t < cells@.len() implies #[trigger] cells@[t].column < column + 1 by {
                        if t < start.len() {
                            assert(cells@[t] == start[t]);
                        }
                    }
                }
                column = column + 1;
            }
        }
        self.cells = cells;
    }

    /// Reports whether `cell` is a spawner.
    pub fn contains(&self, cell: CellCoord) -> (b: bool)
        ensures
            b == self.cells@.contains(cell),
    {
        let mut i: usize = 0;
        while i < self.cells.len()
            invariant
                i <= self.cells@.len(),
                forall|j: int| 0 <= j < i ==> self.cells@[j] != cell,
            decreases self.cells@.len() - i,
        {
            if self.cells[i] == cell {
                assert(self.cells@[i as int] == cell);
                return true;
            }
            i = i + 1;
        }
        false
    }

    /// Reports whether there is no spawner.
    pub fn is_empty(&self) -> (b: bool)
        ensures
            b == (self.cells@.len() == 0),
    {
        self.cells.len() == 0
    }

    /// The spawners in column-then-row order.
    pub fn iter(&self) -> (r: &[CellCoord])
        ensures
            r@ == self.cells@,
    {
        self.cells.as_slice()
    }
}

impl Keyed for ReservationClaim {
    open spec fn key_spec(&self) -> u32 {
        self.bug_id.0
    }

    fn key(&self) -> (k: u32) {
        self.bug_id.0
    }
}

/// Movement claims queued during one simulation tick, kept ordered by bug.
#[derive(Clone, Debug)]
pub struct ReservationFrame {
    pub tick_index: u64,
    pub claims: Vec<ReservationClaim>,
}

impl ReservationFrame {
    /// An empty frame at tick zero.
    pub fn new() -> (r: Self)
        ensures
            r.tick_index == 0,
            r.claims@.len() == 0,
    {
        Self { tick_index: 0, claims: Vec::new() }
    }

    /// Drops every claim and resets the tick.
    pub fn clear(&mut self)
        ensures
            final(self).tick_index == 0,
            final(self).claims@.len() == 0,
    {
        self.tick_index = 0;
        self.claims = Vec::new();
    }

    /// Queues `claim` for `tick_index`, discarding claims of an earlier tick;
    /// the claims stay ordered stably by bug identifier.
    pub fn queue(&mut self, tick_index: u64, claim: ReservationClaim)
        ensures
            final(self).tick_index == tick_index,
            final(self).claims@.len() == (if old(self).tick_index == tick_index {
                old(self).claims@.len() + 1
            } else {
                1
            }),
            is_stable_key_order(
                (if old(self).tick_index == tick_index {
                    old(self).claims@
                } else {
                    Seq::<ReservationClaim>::empty()
                }).push(claim),
                final(self).claims@,
            ),
    {
        if self.tick_index != tick_index {
            self.tick_index = tick_index;
            self.claims = Vec::new();
        }
        self.claims.push(claim);
        self.claims = stable_sort_by_key(&self.claims);
    }

    /// The queued claims.
    pub fn claims(&self) -> (r: &[ReservationClaim])
        ensures
            r@ == self.claims@,
    {
        self.claims.as_slice()
    }

    /// Removes and returns every queued claim, in order.
    pub fn drain_sorted(&mut self) -> (r: Vec<ReservationClaim>)
        ensures
            r@ == old(self).claims@,
            final(self).claims@.len() == 0,
            final(self).tick_index == old(self).tick_index,
    {
        let mut taken: Vec<ReservationClaim> = Vec::new();
        std::mem::swap(&mut taken, &mut self.claims);
        taken
    }
}

} // verus!
