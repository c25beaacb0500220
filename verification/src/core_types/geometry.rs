//! Cell coordinates, rectangles and half-cell distance arithmetic.

use vstd::prelude::*;

verus! {

/// Location of a single grid cell expressed as column and row coordinates.
#[derive(Clone, Copy, Debug, PartialEq, Eq, Hash, PartialOrd, Ord, Structural)]
pub struct CellCoord {
    pub column: u32,
    pub row: u32,
}

/// Absolute difference of two integers.
pub open spec fn abs_diff(a: int, b: int) -> int {
    if a >= b { a - b } else { b - a }
}

/// Manhattan distance between two cells.
pub open spec fn manhattan(a: CellCoord, b: CellCoord) -> int {
    abs_diff(a.column as int, b.column as int) + abs_diff(a.row as int, b.row as int)
}

impl CellCoord {
    /// Creates a new grid cell coordinate.
    pub fn new(column: u32, row: u32) -> (c: Self)
        ensures
            c.column == column,
            c.row == row,
    {
        Self { column, row }
    }

    /// Zero-based column index of the cell.
    pub fn column(&self) -> (r: u32)
        ensures
            r == self.column,
    {
        self.column
    }

    /// Zero-based row index of the cell.
    pub fn row(&self) -> (r: u32)
        ensures
            r == self.row,
    {
        self.row
    }

    /// Computes the Manhattan distance between two cell coordinates.
    ///
    /// The distance of two `u32` coordinates can exceed `u32::MAX`; such pairs
    /// are outside the grids this crate builds and are left out.
    pub fn manhattan_distance(self, other: CellCoord) -> (d: u32)
        requires
            manhattan(self, other) <= u32::MAX,
        ensures
            d == manhattan(self, other),
    {
        let dc = if self.column >= other.column {
            self.column - other.column
        } else {
            other.column - self.column
        };
        let dr = if self.row >= other.row {
            self.row - other.row
        } else {
            other.row - self.row
        };
        dc + dr
    }
}

/// Largest integer whose square does not exceed `v`.
pub open spec fn is_floor_sqrt(v: int, r: int) -> bool {
    0 <= r && r * r <= v && v < (r + 1) * (r + 1)
}

proof fn lemma_square_monotonic(a: int, b: int)
    requires
        0 <= a <= b,
    ensures
        a * a <= b * b,
{
    assert(a * a <= b * b) by (nonlinear_arith)
        requires
            0 <= a <= b,
    ;
}

/// Integer square root rounded down.
fn integer_sqrt(value: u128) -> (r: u128)
    ensures
        is_floor_sqrt(value as int, r as int),
{
    // Invariant: lo * lo <= value < hi * hi.
    let mut lo: u128 = 0;
    let mut hi: u128 = 0x1_0000_0000_0000_0000;
    assert(hi * hi == 0x1_0000_0000_0000_0000_0000_0000_0000_0000int);
    while hi - lo > 1
        invariant
            lo < hi <= 0x1_0000_0000_0000_0000,
            lo * lo <= value,
            value < hi * hi,
        decreases hi - lo,
    {
        let mid: u128 = lo + (hi - lo) / 2;
        proof {
            lemma_square_monotonic(mid as int, 0x1_0000_0000_0000_0000int);
            assert(mid < 0x1_0000_0000_0000_0000);
            assert(mid * mid < 0x1_0000_0000_0000_0000_0000_0000_0000_0000int) by (nonlinear_arith)
                requires
                    mid < 0x1_0000_0000_0000_0000,
            ;
        }
        if mid * mid <= value {
            lo = mid;
        } else {
            hi = mid;
        }
    }
    assert(hi == lo + 1);
    lo
}

/// Coordinate anchored to the centre of a cell measured in half-cell units.
#[derive(Clone, Copy, Debug, PartialEq, Eq, Hash, Structural)]
pub struct CellPointHalf {
    pub column_half: i64,
    pub row_half: i64,
}

/// Largest value of `i128`, the bound at which squared distances saturate.
pub open spec fn i128_max() -> int {
    0x7fff_ffff_ffff_ffff_ffff_ffff_ffff_ffff
}

/// Saturating square of a signed difference, as computed in `i128`.
pub open spec fn sat_square(d: int) -> int {
    if d * d > i128_max() { i128_max() } else { d * d }
}

/// Squared half-cell distance between two points, saturating at `i128::MAX`.
pub open spec fn squared_half_distance(a: CellPointHalf, b: CellPointHalf) -> int {
    let dx = b.column_half - a.column_half;
    let dy = b.row_half - a.row_half;
    let s = sat_square(dx) + sat_square(dy);
    if s > i128_max() { i128_max() } else { s }
}

/// Smallest integer `d` with `d * d >= sq`: the Euclidean distance rounded up.
pub open spec fn is_ceil_sqrt(sq: int, d: int) -> bool {
    0 <= d && d * d >= sq && (d == 0 || (d - 1) * (d - 1) < sq)
}

pub(crate) fn saturating_square(d: i128) -> (r: i128)
    requires
        -0x1_0000_0000_0000_0000 < d < 0x1_0000_0000_0000_0000,
    ensures
        r == sat_square(d as int),
        r >= 0,
{
    let a: u128 = if d >= 0 { d as u128 } else { (0 - d) as u128 };
    proof {
        assert(a < 0x1_0000_0000_0000_0000);
        assert(a * a < 0x1_0000_0000_0000_0000_0000_0000_0000_0000int) by (nonlinear_arith)
            requires
                a < 0x1_0000_0000_0000_0000,
        ;
        assert(a * a == d * d) by (nonlinear_arith)
            requires
                a == d || a == -d,
        ;
        assert(a * a >= 0) by (nonlinear_arith);
    }
    let sq: u128 = a * a;
    if sq > 0x7fff_ffff_ffff_ffff_ffff_ffff_ffff_ffff {
        0x7fff_ffff_ffff_ffff_ffff_ffff_ffff_ffff
    } else {
        sq as i128
    }
}

impl CellPointHalf {
    /// Creates a new half-cell point using the provided integer coordinates.
    pub fn new(column_half: i64, row_half: i64) -> (p: Self)
        ensures
            p.column_half == column_half,
            p.row_half == row_half,
    {
        Self { column_half, row_half }
    }

    /// Half-cell column coordinate represented as a signed integer.
    pub fn column_half(&self) -> (r: i64)
        ensures
            r == self.column_half,
    {
        self.column_half
    }

    /// Half-cell row coordinate represented as a signed integer.
    pub fn row_half(&self) -> (r: i64)
        ensures
            r == self.row_half,
    {
        self.row_half
    }

    /// Computes the Euclidean distance to another point in half-cell units,
    /// rounded up, from the squared distance saturated at `i128::MAX`.
    pub fn distance_to(self, other: Self) -> (d: u128)
        ensures
            is_ceil_sqrt(squared_half_distance(self, other), d as int),
    {
        let dx: i128 = other.column_half as i128 - self.column_half as i128;
        let dy: i128 = other.row_half as i128 - self.row_half as i128;
        let sx = saturating_square(dx);
        let sy = saturating_square(dy);
        let squared: i128 = if sx > 0x7fff_ffff_ffff_ffff_ffff_ffff_ffff_ffff - sy {
            0x7fff_ffff_ffff_ffff_ffff_ffff_ffff_ffff
        } else {
            sx + sy
        };
        let squared = squared as u128;
        let r = integer_sqrt(squared);
        proof {
            assert(r * r <= squared && squared < (r + 1) * (r + 1));
            assert(r < 0x1_0000_0000_0000_0000) by (nonlinear_arith)
                requires
                    r * r <= squared,
                    squared < 0x8000_0000_0000_0000_0000_0000_0000_0000int,
                    r >= 0,
            ;
        }
        if r * r < squared {
            proof {
                assert((r + 1) * (r + 1) >= squared);
            }
            r + 1
        } else {
            proof {
                assert(r * r == squared);
                if r > 0 {
                    assert((r - 1) * (r - 1) < r * r) by (nonlinear_arith)
                        requires
                            r > 0,
                    ;
                }
            }
            r
        }
    }
}


/// Size of a [`CellRect`] measured in whole cells.
#[derive(Clone, Copy, Debug, PartialEq, Eq, Hash, Structural)]
pub struct CellRectSize {
    pub width: u32,
    pub height: u32,
}

impl CellRectSize {
    /// Creates a new size descriptor with explicit dimensions.
    pub fn new(width: u32, height: u32) -> (s: Self)
        ensures
            s.width == width,
            s.height == height,
    {
        Self { width, height }
    }

    /// Width of the rectangle in cells.
    pub fn width(&self) -> (r: u32)
        ensures
            r == self.width,
    {
        self.width
    }

    /// Height of the rectangle in cells.
    pub fn height(&self) -> (r: u32)
        ensures
            r == self.height,
    {
        self.height
    }
}

/// Axis-aligned rectangle expressed in cell coordinates.
#[derive(Clone, Copy, Debug, PartialEq, Eq, Hash, Structural)]
pub struct CellRect {
    pub origin: CellCoord,
    pub size: CellRectSize,
}

/// Whether `cell` lies inside `region` (origin inclusive, far edges exclusive).
pub open spec fn rect_contains(region: CellRect, cell: CellCoord) -> bool {
    &&& region.origin.column <= cell.column
    &&& cell.column < region.origin.column + region.size.width
    &&& region.origin.row <= cell.row
    &&& cell.row < region.origin.row + region.size.height
}

impl CellRect {
    /// Constructs a rectangle from an origin cell and size.
    pub fn from_origin_and_size(origin: CellCoord, size: CellRectSize) -> (r: Self)
        ensures
            r.origin == origin,
            r.size == size,
    {
        Self { origin, size }
    }

    /// Upper-left cell that anchors the rectangle.
    pub fn origin(&self) -> (r: CellCoord)
        ensures
            r == self.origin,
    {
        self.origin
    }

    /// Dimensions of the rectangle measured in whole cells.
    pub fn size(&self) -> (r: CellRectSize)
        ensures
            r == self.size,
    {
        self.size
    }

    /// Reports whether the rectangle covers the provided cell.
    pub fn contains(&self, cell: CellCoord) -> (b: bool)
        ensures
            b == rect_contains(*self, cell),
    {
        let column = cell.column as u64;
        let row = cell.row as u64;
        let origin_column = self.origin.column as u64;
        let origin_row = self.origin.row as u64;
        column >= origin_column && column < origin_column + self.size.width as u64
            && row >= origin_row && row < origin_row + self.size.height as u64
    }
}

} // verus!
