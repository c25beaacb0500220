//! Cell geometry of the maze: bordered grid size, exit opening and wall row.

use vstd::prelude::*;
use crate::core_types::geometry::{CellCoord, CellRect};
use crate::core_types::layout::{Target, TargetCell};
use crate::core_types::values::{Direction, TileCoord};
use crate::core_types::views::Wall;

verus! {

/// Columns added on each side of the interior.
pub const SIDE_BORDER_CELL_LAYERS: u32 = 1;
/// Rows added above the interior.
pub const TOP_BORDER_CELL_LAYERS: u32 = 1;
/// Rows of visible wall below the interior.
pub const BOTTOM_BORDER_CELL_LAYERS: u32 = 1;
/// Hidden exit rows below the wall.
pub const EXIT_CELL_LAYERS: u32 = 1;

/// `a * b` clamped to `u32::MAX`.
pub open spec fn sat_mul(a: int, b: int) -> int {
    if a * b > u32::MAX { u32::MAX as int } else { a * b }
}

/// `a + b` clamped to `u32::MAX`.
pub open spec fn sat_add(a: int, b: int) -> int {
    if a + b > u32::MAX { u32::MAX as int } else { a + b }
}

/// Interior cell columns: tile columns times cells per tile.
pub open spec fn spec_interior(tiles: int, cells_per_tile: int) -> int {
    sat_mul(tiles, cells_per_tile)
}

/// Total cell columns: the interior plus one border column on each side
/// (zero for an empty interior).
pub open spec fn spec_total_columns(columns: int, cells_per_tile: int) -> int {
    let interior = spec_interior(columns, cells_per_tile);
    if interior == 0 { 0 } else { sat_add(interior, 2) }
}

/// Total cell rows: the interior plus a top border, a visible wall row and a
/// hidden exit row (zero for an empty interior).
pub open spec fn spec_total_rows(rows: int, cells_per_tile: int) -> int {
    let interior = spec_interior(rows, cells_per_tile);
    if interior == 0 { 0 } else { sat_add(sat_add(sat_add(interior, 1), 1), 1) }
}

/// Row of the hidden exit: the last row (zero for an empty grid).
pub open spec fn spec_exit_row(rows: int, cells_per_tile: int) -> int {
    let total = spec_total_rows(rows, cells_per_tile);
    if total == 0 { 0 } else { total - 1 }
}

/// First column of the exit opening: below the centre tile (the left one of
/// the two centre tiles for an even count), after the side border.
pub open spec fn spec_exit_start(columns: int, cells_per_tile: int) -> int {
    let center = if columns % 2 == 0 { (columns - 1) / 2 } else { columns / 2 };
    sat_add(1, sat_mul(center, cells_per_tile))
}

fn saturating_mul(a: u32, b: u32) -> (r: u32)
    ensures
        r == sat_mul(a as int, b as int),
{
    proof {
        assert(a * b <= 0xffff_ffff * 0xffff_ffffint) by (nonlinear_arith)
            requires
                a <= 0xffff_ffff,
                b <= 0xffff_ffff,
        ;
    }
    let p: u64 = a as u64 * b as u64;
    if p > u32::MAX as u64 {
        u32::MAX
    } else {
        p as u32
    }
}

fn saturating_add(a: u32, b: u32) -> (r: u32)
    ensures
        r == sat_add(a as int, b as int),
{
    if a > u32::MAX - b {
        u32::MAX
    } else {
        a + b
    }
}

/// Interior cell columns of a tile grid.
pub fn interior_cell_columns(columns: TileCoord, cells_per_tile: u32) -> (r: u32)
    ensures
        r == spec_interior(columns.0 as int, cells_per_tile as int),
{
    saturating_mul(columns.0, cells_per_tile)
}

/// Interior cell rows of a tile grid.
pub fn interior_cell_rows(rows: TileCoord, cells_per_tile: u32) -> (r: u32)
    ensures
        r == spec_interior(rows.0 as int, cells_per_tile as int),
{
    saturating_mul(rows.0, cells_per_tile)
}

/// Total cell columns of a tile grid, borders included.
pub fn total_cell_columns(columns: TileCoord, cells_per_tile: u32) -> (r: u32)
    ensures
        r == spec_total_columns(columns.0 as int, cells_per_tile as int),
{
    let interior = interior_cell_columns(columns, cells_per_tile);
    if interior == 0 {
        0
    } else {
        saturating_add(interior, SIDE_BORDER_CELL_LAYERS * 2)
    }
}

/// Total cell rows of a tile grid, borders and exit row included.
pub fn total_cell_rows(rows: TileCoord, cells_per_tile: u32) -> (r: u32)
    ensures
        r == spec_total_rows(rows.0 as int, cells_per_tile as int),
{
    let interior = interior_cell_rows(rows, cells_per_tile);
    if interior == 0 {
        0
    } else {
        saturating_add(
            saturating_add(saturating_add(interior, TOP_BORDER_CELL_LAYERS), BOTTOM_BORDER_CELL_LAYERS),
            EXIT_CELL_LAYERS,
        )
    }
}

/// Row index of the hidden exit row.
pub fn exit_row_for_tile_grid(rows: TileCoord, cells_per_tile: u32) -> (r: u32)
    ensures
        r == spec_exit_row(rows.0 as int, cells_per_tile as int),
{
    let total = total_cell_rows(rows, cells_per_tile);
    if total == 0 {
        0
    } else {
        total - 1
    }
}

/// Columns of the exit opening: `cells_per_tile` consecutive columns starting
/// below the centre tile (clamped to `u32::MAX`); none for an empty grid.
pub fn exit_columns_for_tile_grid(columns: TileCoord, cells_per_tile: u32) -> (r: Vec<u32>)
    ensures
        columns.0 == 0 || cells_per_tile == 0 ==> r@.len() == 0,
        columns.0 != 0 && cells_per_tile != 0 ==> {
            &&& r@.len() == cells_per_tile
            &&& forall|i: int| 0 <= i < r@.len() ==> #[trigger] r@[i] == sat_add(
                spec_exit_start(columns.0 as int, cells_per_tile as int),
                i,
            )
        },
{
    let tile_columns = columns.0;
    let mut out: Vec<u32> = Vec::new();
    if tile_columns == 0 || cells_per_tile == 0 {
        return out;
    }
    let center_tile = if tile_columns % 2 == 0 {
        (tile_columns - 1) / 2
    } else {
        tile_columns / 2
    };
    let start_column = saturating_add(SIDE_BORDER_CELL_LAYERS, saturating_mul(center_tile, cells_per_tile));
    let mut offset: u32 = 0;
    while offset < cells_per_tile
        invariant
            offset <= cells_per_tile,
            start_column == spec_exit_start(columns.0 as int, cells_per_tile as int),
            out@.len() == offset,
            forall|i: int| 0 <= i < out@.len() ==> #[trigger] out@[i] == sat_add(start_column as int, i),
        decreases cells_per_tile - offset,
    {
        out.push(saturating_add(start_column, offset));
        offset = offset + 1;
    }
    out
}

/// Row of visible wall cells: directly above the exit row.
pub open spec fn spec_visible_wall_row(rows: int, cells_per_tile: int) -> Option<int> {
    if spec_interior(rows, cells_per_tile) == 0 {
        None
    } else {
        Some(spec_exit_row(rows, cells_per_tile) - 1)
    }
}

/// Row index of the visible wall, if the grid has an interior.
pub fn visible_wall_row_for_tile_grid(rows: TileCoord, cells_per_tile: u32) -> (r: Option<u32>)
    ensures
        r == match spec_visible_wall_row(rows.0 as int, cells_per_tile as int) {
            Some(v) => Some(v as u32),
            None => None::<u32>,
        },
        r matches Some(v) ==> v as int == spec_exit_row(rows.0 as int, cells_per_tile as int) - 1,
{
    if interior_cell_rows(rows, cells_per_tile) == 0 {
        return None;
    }
    let exit_row = exit_row_for_tile_grid(rows, cells_per_tile);
    // A non-empty interior has at least four total rows, so the exit row is at least 3.
    Some(exit_row - EXIT_CELL_LAYERS)
}

/// Row index of the playable walkway just above the wall row, if any.
pub fn walkway_row_for_tile_grid(rows: TileCoord, cells_per_tile: u32) -> (r: Option<u32>)
    ensures
        r == match spec_visible_wall_row(rows.0 as int, cells_per_tile as int) {
            Some(v) => Some((v - 1) as u32),
            None => None::<u32>,
        },
{
    match visible_wall_row_for_tile_grid(rows, cells_per_tile) {
        Some(row) => Some(row - 1),
        None => None,
    }
}

/// Whether column `c` belongs to the exit opening of the tile grid.
pub open spec fn in_exit_opening(columns: int, cells_per_tile: int, c: int) -> bool {
    columns != 0 && cells_per_tile != 0 && exists|i: int| 0 <= i < cells_per_tile && c == sat_add(
        spec_exit_start(columns, cells_per_tile),
        i,
    )
}

/// Builds the wall cells of a tile grid: one wall per column of the visible
/// wall row, in column order, skipping the columns of the exit opening.
pub fn build_cell_walls(columns: TileCoord, rows: TileCoord, cells_per_tile: u32) -> (r: Vec<Wall>)
    ensures
        spec_visible_wall_row(rows.0 as int, cells_per_tile as int) is None ==> r@.len() == 0,
        spec_visible_wall_row(rows.0 as int, cells_per_tile as int) matches Some(wall_row) ==> {
            &&& forall|i: int| 0 <= i < r@.len() ==> (#[trigger] r@[i]).cell.row == wall_row
                && r@[i].cell.column < spec_total_columns(columns.0 as int, cells_per_tile as int)
                && !in_exit_opening(columns.0 as int, cells_per_tile as int, r@[i].cell.column as int)
            &&& forall|i: int, j: int| 0 <= i < j < r@.len() ==> r@[i].cell.column < r@[j].cell.column
            &&& forall|c: u32| c < spec_total_columns(columns.0 as int, cells_per_tile as int)
                && !in_exit_opening(columns.0 as int, cells_per_tile as int, c as int)
                ==> r@.contains(Wall { cell: CellCoord { column: c, row: wall_row as u32 } })
        },
{
    let total_columns = total_cell_columns(columns, cells_per_tile);
    let mut walls: Vec<Wall> = Vec::new();
    let wall_row = match visible_wall_row_for_tile_grid(rows, cells_per_tile) {
        Some(row) => row,
        None => return walls,
    };
    let exit_columns = exit_columns_for_tile_grid(columns, cells_per_tile);
    let mut column: u32 = 0;
    while column < total_columns
        invariant
            column <= total_columns,
            total_columns == spec_total_columns(columns.0 as int, cells_per_tile as int),
            spec_visible_wall_row(rows.0 as int, cells_per_tile as int) == Some(wall_row as int),
            columns.0 == 0 || cells_per_tile == 0 ==> exit_columns@.len() == 0,
            columns.0 != 0 && cells_per_tile != 0 ==> {
                &&& exit_columns@.len() == cells_per_tile
                &&& forall|i: int| 0 <= i < exit_columns@.len() ==> #[trigger] exit_columns@[i] == sat_add(
                    spec_exit_start(columns.0 as int, cells_per_tile as int),
                    i,
                )
            },
            forall|i: int| 0 <= i < walls@.len() ==> (#[trigger] walls@[i]).cell.row == wall_row
                && walls@[i].cell.column < column
                && !in_exit_opening(columns.0 as int, cells_per_tile as int, walls@[i].cell.column as int),
            forall|i: int, j: int| 0 <= i < j < walls@.len() ==> walls@[i].cell.column < walls@[j].cell.column,
            forall|c: u32| c < column && !in_exit_opening(columns.0 as int, cells_per_tile as int, c as int)
                ==> walls@.contains(Wall { cell: CellCoord { column: c, row: wall_row } }),
        decreases total_columns - column,
    {
        let mut in_exit = false;
        let mut k: usize = 0;
        while k < exit_columns.len()
            invariant
                k <= exit_columns@.len(),
                in_exit == exists|i: int| 0 <= i < k && exit_columns@[i] == column,
            decreases exit_columns@.len() - k,
        {
            if exit_columns[k] == column {
                in_exit = true;
            }
            k = k + 1;
        }
        proof {
            if in_exit {
                let i = choose|i: int| 0 <= i < exit_columns@.len() && exit_columns@[i] == column;
                assert(exit_columns@[i] == column);
                assert(in_exit_opening(columns.0 as int, cells_per_tile as int, column as int));
            } else {
                if in_exit_opening(columns.0 as int, cells_per_tile as int, column as int) {
                    let i = choose|i: int| 0 <= i < cells_per_tile && column == sat_add(
                        spec_exit_start(columns.0 as int, cells_per_tile as int),
                        i,
                    );
                    assert(exit_columns@[i] == column);
                }
            }
        }
        if !in_exit {
            let w = Wall { cell: CellCoord { column, row: wall_row } };
            let ghost before = walls@;
            walls.push(w);
            proof {
                assert(walls@[walls@.len() - 1] == w);
                assert forall|c: u32| c < column + 1 && !in_exit_opening(columns.0 as int, cells_per_tile as int, c as int)
                    implies walls@.contains(Wall { cell: CellCoord { column: c, row: wall_row } }) by {
                    if c < column {
                        assert(before.contains(Wall { cell: CellCoord { column: c, row: wall_row } }));
                        let q = choose|q: int| 0 <= q < before.len() && #[trigger] before[q] == Wall { cell: CellCoord { column: c, row: wall_row } };
                        assert(walls@[q] == before[q]);
                    }
                }
            }
        }
        column = column + 1;
    }
    walls
}

/// The `i`-th cell of the exit target.
pub open spec fn exit_cell(columns: int, rows: int, cells_per_tile: int, i: int) -> CellCoord {
    CellCoord {
        column: sat_add(spec_exit_start(columns, cells_per_tile), i) as u32,
        row: spec_exit_row(rows, cells_per_tile) as u32,
    }
}

/// Cells of the exit target: the exit opening's columns on the exit row.
pub fn target_cells(columns: TileCoord, rows: TileCoord, cells_per_tile: u32) -> (r: Vec<TargetCell>)
    ensures
        columns.0 == 0 || rows.0 == 0 || cells_per_tile == 0 ==> r@.len() == 0,
        columns.0 != 0 && rows.0 != 0 && cells_per_tile != 0 ==> {
            &&& r@.len() == cells_per_tile
            &&& forall|i: int| 0 <= i < r@.len() ==> (#[trigger] r@[i]).cell == exit_cell(columns.0 as int, rows.0 as int, cells_per_tile as int, i)
        },
{
    let mut out: Vec<TargetCell> = Vec::new();
    if columns.0 == 0 || rows.0 == 0 || cells_per_tile == 0 {
        return out;
    }
    let exit_row = exit_row_for_tile_grid(rows, cells_per_tile);
    let exit_columns = exit_columns_for_tile_grid(columns, cells_per_tile);
    let mut i: usize = 0;
    while i < exit_columns.len()
        invariant
            i <= exit_columns@.len(),
            exit_columns@.len() == cells_per_tile,
            exit_row == spec_exit_row(rows.0 as int, cells_per_tile as int),
            forall|j: int| 0 <= j < exit_columns@.len() ==> #[trigger] exit_columns@[j] == sat_add(
                spec_exit_start(columns.0 as int, cells_per_tile as int),
                j,
            ),
            out@.len() == i,
            forall|j: int| 0 <= j < out@.len() ==> (#[trigger] out@[j]).cell == exit_cell(columns.0 as int, rows.0 as int, cells_per_tile as int, j),
        decreases exit_columns@.len() - i,
    {
        out.push(TargetCell::new(exit_columns[i], exit_row));
        i = i + 1;
    }
    out
}

/// The exit target of a tile grid together with its cells.
pub fn build_target(columns: TileCoord, rows: TileCoord, cells_per_tile: u32) -> (r: (Target, Vec<CellCoord>))
    ensures
        r.1@.len() == r.0.cells@.len(),
        forall|i: int| 0 <= i < r.1@.len() ==> #[trigger] r.1@[i] == r.0.cells@[i].cell,
        columns.0 == 0 || rows.0 == 0 || cells_per_tile == 0 ==> r.1@.len() == 0,
        columns.0 != 0 && rows.0 != 0 && cells_per_tile != 0 ==> {
            &&& r.1@.len() == cells_per_tile
            &&& forall|i: int| 0 <= i < r.1@.len() ==> #[trigger] r.1@[i] == exit_cell(columns.0 as int, rows.0 as int, cells_per_tile as int, i)
        },
{
    let cells = target_cells(columns, rows, cells_per_tile);
    let mut coords: Vec<CellCoord> = Vec::new();
    let mut i: usize = 0;
    while i < cells.len()
        invariant
            i <= cells@.len(),
            coords@.len() == i,
            forall|j: int| 0 <= j < i ==> #[trigger] coords@[j] == cells@[j].cell,
        decreases cells@.len() - i,
    {
        coords.push(cells[i].cell);
        i = i + 1;
    }
    (Target::new(cells), coords)
}

/// The cell one step from `from` in `direction`, if it stays inside a grid of
/// the given dimensions (rows and columns only grow toward the far edges).
pub open spec fn spec_advance(from: CellCoord, direction: Direction, columns: int, rows: int) -> Option<CellCoord> {
    match direction {
        Direction::North => if from.row > 0 {
            Some(CellCoord { column: from.column, row: (from.row - 1) as u32 })
        } else {
            None
        },
        Direction::East => if from.column + 1 < columns {
            Some(CellCoord { column: (from.column + 1) as u32, row: from.row })
        } else {
            None
        },
        Direction::South => if from.row + 1 < rows {
            Some(CellCoord { column: from.column, row: (from.row + 1) as u32 })
        } else {
            None
        },
        Direction::West => if from.column > 0 {
            Some(CellCoord { column: (from.column - 1) as u32, row: from.row })
        } else {
            None
        },
    }
}

/// Moves one cell in `direction`, unless that leaves the grid.
pub fn advance_cell(from: CellCoord, direction: Direction, columns: u32, rows: u32) -> (r: Option<CellCoord>)
    ensures
        r == spec_advance(from, direction, columns as int, rows as int),
{
    match direction {
        Direction::North => {
            if from.row > 0 {
                Some(CellCoord { column: from.column, row: from.row - 1 })
            } else {
                None
            }
        },
        Direction::East => {
            if from.column < u32::MAX && from.column + 1 < columns {
                Some(CellCoord { column: from.column + 1, row: from.row })
            } else {
                None
            }
        },
        Direction::South => {
            if from.row < u32::MAX && from.row + 1 < rows {
                Some(CellCoord { column: from.column, row: from.row + 1 })
            } else {
                None
            }
        },
        Direction::West => {
            if from.column > 0 {
                Some(CellCoord { column: from.column - 1, row: from.row })
            } else {
                None
            }
        },
    }
}

/// Whether `region` covers `cell`.
pub fn cell_rect_contains(region: CellRect, cell: CellCoord) -> (b: bool)
    ensures
        b == crate::core_types::geometry::rect_contains(region, cell),
{
    region.contains(cell)
}

} // verus!
