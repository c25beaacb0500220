//! Row-major addressing facts shared by the world's dense grids.

use vstd::prelude::*;
use crate::core_types::geometry::CellCoord;
use crate::core_types::fields::row_major;

verus! {

/// `cell` lies inside a grid of the given dimensions.
pub open spec fn in_grid(cell: CellCoord, width: int, height: int) -> bool {
    cell.column < width && cell.row < height
}

/// Distinct in-bounds cells have distinct row-major offsets, which lie in range.
pub proof fn lemma_row_major(a: CellCoord, b: CellCoord, width: int, height: int)
    requires
        in_grid(a, width, height),
        in_grid(b, width, height),
    ensures
        0 <= row_major(a, width) < width * height,
        a != b ==> row_major(a, width) != row_major(b, width),
{
    assert(0 <= row_major(a, width) < width * height) by (nonlinear_arith)
        requires
            a.column < width,
            a.row < height,
            a.column >= 0,
            a.row >= 0,
    ;
    if a != b && row_major(a, width) == row_major(b, width) {
        if a.row == b.row {
            assert(a.column == b.column);
        } else if a.row < b.row {
            assert(a.row * width + a.column < b.row * width + b.column) by (nonlinear_arith)
                requires
                    a.row < b.row,
                    a.column < width,
                    b.column >= 0,
            ;
        } else {
            assert(b.row * width + b.column < a.row * width + a.column) by (nonlinear_arith)
                requires
                    b.row < a.row,
                    b.column < width,
                    a.column >= 0,
            ;
        }
    }
}


/// The cell at row-major offset `i` of a grid `width` cells wide.
pub open spec fn cell_of_index(i: int, width: int) -> CellCoord {
    CellCoord { column: (i % width) as u32, row: (i / width) as u32 }
}

/// Converting an in-bounds cell to its offset and back yields the cell.
pub proof fn lemma_cell_of_index(c: CellCoord, width: int, height: int)
    requires
        in_grid(c, width, height),
    ensures
        cell_of_index(row_major(c, width), width) == c,
{
    vstd::arithmetic::div_mod::lemma_fundamental_div_mod_converse(
        row_major(c, width),
        width,
        c.row as int,
        c.column as int,
    );
}

} // verus!
