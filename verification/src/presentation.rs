//! Presentation descriptors that adapters render: sub-tile cursor positions,
//! walls, health bars, frame timings, and the text of percentages.

use vstd::prelude::*;
use vstd::string::StrSliceExecFns;
use crate::transfer::text::{chars_to_string, decimal_chars, digit_char, push_decimal};

verus! {

/// Tile-space coordinate pair snapped to deterministic sub-tile increments.
#[derive(Clone, Copy, Debug, PartialEq, Eq, Hash)]
pub struct TileSpacePosition {
    column_steps: u32,
    row_steps: u32,
    steps_per_tile: u32,
}

impl TileSpacePosition {
    /// A position never holds zero steps per tile.
    #[verifier::type_invariant]
    spec fn steps_never_zero(&self) -> bool {
        self.steps_per_tile > 0
    }

    /// Column offset in sub-tile steps.
    pub closed spec fn spec_column_steps(&self) -> u32 {
        self.column_steps
    }

    /// Row offset in sub-tile steps.
    pub closed spec fn spec_row_steps(&self) -> u32 {
        self.row_steps
    }

    /// Sub-tile steps per tile, as stored.
    pub closed spec fn spec_steps_per_tile(&self) -> u32 {
        self.steps_per_tile
    }

    /// Two positions with the same offsets and steps per tile are the same position.
    pub proof fn lemma_same_views_same_position(p: Self, q: Self)
        requires
            p.spec_column_steps() == q.spec_column_steps(),
            p.spec_row_steps() == q.spec_row_steps(),
            p.spec_steps_per_tile() == q.spec_steps_per_tile(),
        ensures
            p == q,
    {
    }

    /// Creates a position from zero-based whole-tile indices: `new(column, row, 1)`.
    pub fn from_indices(column: u32, row: u32) -> (p: Self)
        ensures
            p.spec_column_steps() == column,
            p.spec_row_steps() == row,
            p.spec_steps_per_tile() == 1,
    {
        Self::new(column, row, 1)
    }

    /// Creates a position expressed in sub-tile increments: `new(column_steps, row_steps, steps_per_tile)`.
    pub fn from_steps(column_steps: u32, row_steps: u32, steps_per_tile: u32) -> (p: Self)
        ensures
            p.spec_column_steps() == column_steps,
            p.spec_row_steps() == row_steps,
            p.spec_steps_per_tile() == if steps_per_tile == 0 { 1 } else { steps_per_tile },
    {
        Self::new(column_steps, row_steps, steps_per_tile)
    }

    /// Creates a position expressed in sub-tile increments; zero steps per
    /// tile are stored as one.
    pub fn new(column_steps: u32, row_steps: u32, steps_per_tile: u32) -> (p: Self)
        ensures
            p.spec_column_steps() == column_steps,
            p.spec_row_steps() == row_steps,
            p.spec_steps_per_tile() == if steps_per_tile == 0 { 1 } else { steps_per_tile },
    {
        let steps_per_tile = if steps_per_tile == 0 { 1 } else { steps_per_tile };
        Self { column_steps, row_steps, steps_per_tile }
    }

    /// Number of sub-tile steps offset along the column axis.
    pub fn column_steps(&self) -> (r: u32)
        ensures
            r == self.spec_column_steps(),
    {
        self.column_steps
    }

    /// Number of sub-tile steps offset along the row axis.
    pub fn row_steps(&self) -> (r: u32)
        ensures
            r == self.spec_row_steps(),
    {
        self.row_steps
    }

    /// Number of sub-tile steps that compose a full tile along each axis.
    pub fn steps_per_tile(&self) -> (r: u32)
        ensures
            r == self.spec_steps_per_tile(),
            r > 0,
    {
        proof {
            use_type_invariant(self);
        }
        self.steps_per_tile
    }

    /// Whether the position lies on whole-tile indices.
    pub fn is_integer_aligned(&self) -> (b: bool)
        ensures
            b == (self.spec_column_steps() % self.spec_steps_per_tile() == 0
                && self.spec_row_steps() % self.spec_steps_per_tile() == 0),
    {
        proof {
            use_type_invariant(self);
        }
        self.column_steps % self.steps_per_tile == 0 && self.row_steps % self.steps_per_tile == 0
    }
}

/// Cell-sized wall rendered inside the maze interior.
#[derive(Clone, Copy, Debug, PartialEq, Eq, Hash, Structural)]
pub struct SceneWall {
    /// Zero-based column index of the cell guarded by the wall.
    pub column: u32,
    /// Zero-based row index of the cell guarded by the wall.
    pub row: u32,
}

impl SceneWall {
    /// Creates a new scene wall descriptor.
    pub fn new(column: u32, row: u32) -> (w: Self)
        ensures
            w.column == column,
            w.row == row,
    {
        Self { column, row }
    }
}

/// Health values required to render a bug's health bar.
#[derive(Clone, Copy, Debug, PartialEq, Eq, Structural)]
pub struct BugHealthPresentation {
    /// Current health remaining for the bug.
    pub current: u32,
    /// Maximum health the bug started with.
    pub maximum: u32,
}

impl BugHealthPresentation {
    /// Creates a new bug health descriptor.
    pub fn new(current: u32, maximum: u32) -> (h: Self)
        ensures
            h.current == current,
            h.maximum == maximum,
    {
        Self { current, maximum }
    }
}

/// Per-frame timings a simulation reports so adapters can show where the
/// frame went.
#[derive(Clone, Copy, Debug, PartialEq, Eq)]
pub struct FrameSimulationBreakdown {
    /// Total time spent advancing the simulation this frame.
    pub simulation: std::time::Duration,
    /// Portion of the simulation advance dedicated to pathfinding.
    pub pathfinding: std::time::Duration,
    /// Time spent translating simulation state into renderable scene data.
    pub scene_population: std::time::Duration,
}

impl FrameSimulationBreakdown {
    /// Creates a diagnostics record holding the provided durations.
    pub fn new(
        simulation: std::time::Duration,
        pathfinding: std::time::Duration,
        scene_population: std::time::Duration,
    ) -> (b: Self)
        ensures
            b.simulation == simulation,
            b.pathfinding == pathfinding,
            b.scene_population == scene_population,
    {
        Self { simulation, pathfinding, scene_population }
    }
}

/// Errors raised while building rendering descriptors.
#[derive(Clone, Copy, Debug, PartialEq, Eq, Structural)]
pub enum RenderingError {
    /// Cells per tile must be positive to avoid a zero-sized cell.
    InvalidCellsPerTile {
        /// Provided cell count that failed validation.
        cells_per_tile: u32,
    },
}

/// The text of a rendering error.
pub open spec fn rendering_error_text(e: RenderingError) -> Seq<char> {
    match e {
        RenderingError::InvalidCellsPerTile { cells_per_tile } => "cells_per_tile must be positive (received "@
            + decimal_chars(cells_per_tile as nat) + ")"@,
    }
}

impl RenderingError {
    /// Human-readable description of the error.
    pub fn message(&self) -> (s: String)
        ensures
            s@ == rendering_error_text(*self),
    {
        match self {
            RenderingError::InvalidCellsPerTile { cells_per_tile } => {
                let prefix = "cells_per_tile must be positive (received ";
                let suffix = ")";
                let mut chars: Vec<char> = Vec::new();
                let mut i: usize = 0;
                proof {
                    reveal_strlit("cells_per_tile must be positive (received ");
                    reveal_strlit(")");
                }
                let n = prefix.unicode_len();
                while i < n
                    invariant
                        i <= n,
                        n == prefix@.len(),
                        chars@ == prefix@.subrange(0, i as int),
                    decreases n - i,
                {
                    chars.push(prefix.get_char(i));
                    i = i + 1;
                    assert(chars@ =~= prefix@.subrange(0, i as int));
                }
                assert(prefix@.subrange(0, n as int) =~= prefix@);
                push_decimal(*cells_per_tile, &mut chars);
                chars.push(suffix.get_char(0));
                let s = chars_to_string(chars.as_slice());
                assert(s@ =~= rendering_error_text(*self));
                s
            },
        }
    }
}

/// Accepts a positive cells-per-tile count, the one setting of a tile grid
/// presentation that can be invalid.
pub fn check_cells_per_tile(cells_per_tile: u32) -> (r: Result<u32, RenderingError>)
    ensures
        cells_per_tile > 0 ==> r == Ok::<u32, RenderingError>(cells_per_tile),
        cells_per_tile == 0 ==> r == Err::<u32, RenderingError>(
            RenderingError::InvalidCellsPerTile { cells_per_tile: 0 },
        ),
{
    if cells_per_tile == 0 {
        Err(RenderingError::InvalidCellsPerTile { cells_per_tile })
    } else {
        Ok(cells_per_tile)
    }
}

/// The text of `value` basis points as a percentage with two decimals,
/// such as `83.33%` for 8 333.
pub open spec fn basis_points_text(value: u32) -> Seq<char> {
    decimal_chars((value / 100) as nat) + seq!['.', digit_char(((value % 100) / 10) as nat), digit_char(
        (value % 10) as nat,
    ), '%']
}

/// Formats basis points as a percentage with two decimals.
pub fn format_basis_points(value: u32) -> (s: String)
    ensures
        s@ == basis_points_text(value),
{
    let mut chars: Vec<char> = Vec::new();
    push_decimal(value / 100, &mut chars);
    chars.push('.');
    push_decimal((value % 100) / 10, &mut chars);
    push_decimal(value % 10, &mut chars);
    chars.push('%');
    proof {
        assert(decimal_chars(((value % 100) / 10) as nat) =~= seq![digit_char(((value % 100) / 10) as nat)]);
        assert(decimal_chars((value % 10) as nat) =~= seq![digit_char((value % 10) as nat)]);
    }
    let s = chars_to_string(chars.as_slice());
    assert(s@ =~= basis_points_text(value));
    s
}

} // verus!
