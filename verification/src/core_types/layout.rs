//! Tile grid description, exit target, goals and hand-authored attack plans.

use vstd::prelude::*;
use super::geometry::{CellCoord, CellPointHalf};
use super::values::{BugColor, BugId, Health, NonZeroU32, ProjectileId, TileCoord, TowerId};

verus! {

/// Describes the discrete tile layout of the maze.
///
/// The side length of a tile is kept as the bit pattern of an IEEE-754 single
/// precision number; the simulation never computes with it.
#[derive(Clone, Copy, Debug, PartialEq, Eq, Structural)]
pub struct TileGrid {
    pub columns: TileCoord,
    pub rows: TileCoord,
    pub tile_length_bits: u32,
}

impl TileGrid {
    /// The tile grid with the given fields.
    pub open spec fn new_spec(columns: TileCoord, rows: TileCoord, tile_length_bits: u32) -> TileGrid {
        TileGrid { columns, rows, tile_length_bits }
    }

    /// Creates a new tile grid description.
    pub fn new(columns: TileCoord, rows: TileCoord, tile_length_bits: u32) -> (g: Self)
        ensures
            g == Self::new_spec(columns, rows, tile_length_bits),
    {
        Self { columns, rows, tile_length_bits }
    }

    /// Number of columns contained in the grid.
    pub fn columns(&self) -> (r: TileCoord)
        ensures
            r == self.columns,
    {
        self.columns
    }

    /// Number of rows contained in the grid.
    pub fn rows(&self) -> (r: TileCoord)
        ensures
            r == self.rows,
    {
        self.rows
    }

    /// Bit pattern of the tile side length.
    pub fn tile_length_bits(&self) -> (r: u32)
        ensures
            r == self.tile_length_bits,
    {
        self.tile_length_bits
    }
}

/// Discrete cell that composes part of the wall target.
#[derive(Clone, Copy, Debug, PartialEq, Eq, Hash, Structural)]
pub struct TargetCell {
    pub cell: CellCoord,
}

impl TargetCell {
    /// Creates a new target cell located at the provided column and row.
    pub fn new(column: u32, row: u32) -> (t: Self)
        ensures
            t.cell == (CellCoord { column, row }),
    {
        Self { cell: CellCoord { column, row } }
    }

    /// Column that contains the cell.
    pub fn column(&self) -> (r: u32)
        ensures
            r == self.cell.column,
    {
        self.cell.column
    }

    /// Row that contains the cell.
    pub fn row(&self) -> (r: u32)
        ensures
            r == self.cell.row,
    {
        self.cell.row
    }

    /// Returns the complete cell coordinate for the target cell.
    pub fn cell(&self) -> (r: CellCoord)
        ensures
            r == self.cell,
    {
        self.cell
    }
}

/// Opening carved into the wall that bugs attempt to reach.
#[derive(Clone, Debug, PartialEq, Eq)]
pub struct Target {
    pub cells: Vec<TargetCell>,
}

impl Target {
    /// Creates a target composed of the provided cells.
    pub fn new(cells: Vec<TargetCell>) -> (t: Self)
        ensures
            t.cells@ == cells@,
    {
        Self { cells }
    }

    /// Cells that make up the target opening.
    pub fn cells(&self) -> (r: &[TargetCell])
        ensures
            r@ == self.cells@,
    {
        self.cells.as_slice()
    }
}

/// Canonical representation of the goal cell of a bug.
#[derive(Clone, Copy, Debug, PartialEq, Eq, Hash, Structural)]
pub struct Goal {
    pub cell: CellCoord,
}

impl Goal {
    /// Creates a goal anchored at the provided cell coordinate.
    pub fn at(cell: CellCoord) -> (g: Self)
        ensures
            g.cell == cell,
    {
        Self { cell }
    }

    /// Returns the cell that defines the goal.
    pub fn cell(&self) -> (r: CellCoord)
        ensures
            r == self.cell,
    {
        self.cell
    }
}

/// Immutable representation of a projectile maintained by the world.
#[derive(Clone, Copy, Debug, PartialEq, Eq, Structural)]
pub struct ProjectileSnapshot {
    /// Identifier allocated to the projectile by the world.
    pub projectile: ProjectileId,
    /// Tower that fired the projectile.
    pub tower: TowerId,
    /// Intended bug target recorded at launch time.
    pub target: BugId,
    /// Starting point in half-cell units.
    pub origin_half: CellPointHalf,
    /// Destination point in half-cell units.
    pub dest_half: CellPointHalf,
    /// Total distance to travel in half-cell units.
    pub distance_half: u128,
    /// Distance already travelled in half-cell units.
    pub travelled_half: u128,
}

/// Target assignment describing a tower aiming at a specific bug; centres are
/// given in half-cell units (a cell centre sits at `2 * index + 1`).
#[derive(Clone, Copy, Debug, PartialEq, Eq, Structural)]
pub struct TowerTarget {
    /// Identifier of the tower emitting the targeting beam.
    pub tower: TowerId,
    /// Identifier of the bug selected as the target.
    pub bug: BugId,
    /// Centre of the tower footprint in half-cell units.
    pub tower_center_half: CellPointHalf,
    /// Centre of the targeted bug in half-cell units.
    pub bug_center_half: CellPointHalf,
}

/// Describes the appearance and behaviour of bugs spawned by an [`AttackBurst`].
#[derive(Clone, Copy, Debug, PartialEq, Eq, Structural)]
pub struct AttackBugDescriptor {
    pub color: BugColor,
    pub health: Health,
    pub step_ms: u32,
}

impl AttackBugDescriptor {
    /// Creates a new bug descriptor using the provided appearance and pacing.
    pub fn new(color: BugColor, health: Health, step_ms: u32) -> (d: Self)
        ensures
            d.color == color,
            d.health == health,
            d.step_ms == step_ms,
    {
        Self { color, health, step_ms }
    }

    /// Returns the colour assigned to spawned bugs.
    pub fn color(&self) -> (r: BugColor)
        ensures
            r == self.color,
    {
        self.color
    }

    /// Returns the health applied to spawned bugs.
    pub fn health(&self) -> (r: Health)
        ensures
            r == self.health,
    {
        self.health
    }

    /// Returns the bug step cadence expressed in milliseconds.
    pub fn step_ms(&self) -> (r: u32)
        ensures
            r == self.step_ms,
    {
        self.step_ms
    }
}

/// Homogeneous burst scheduled within an [`AttackPlan`].
#[derive(Clone, Copy, Debug, PartialEq, Eq)]
pub struct AttackBurst {
    pub spawner: CellCoord,
    pub bug: AttackBugDescriptor,
    pub count: NonZeroU32,
    pub cadence_ms: NonZeroU32,
    pub start_ms: u32,
}

impl AttackBurst {
    /// Creates a new burst descriptor spawning identical bugs from a single spawner.
    pub fn new(
        spawner: CellCoord,
        bug: AttackBugDescriptor,
        count: NonZeroU32,
        cadence_ms: NonZeroU32,
        start_ms: u32,
    ) -> (b: Self)
        ensures
            b.spawner == spawner,
            b.bug == bug,
            b.count == count,
            b.cadence_ms == cadence_ms,
            b.start_ms == start_ms,
    {
        Self { spawner, bug, count, cadence_ms, start_ms }
    }

    /// Returns the cell coordinate of the spawner assigned to the burst.
    pub fn spawner(&self) -> (r: CellCoord)
        ensures
            r == self.spawner,
    {
        self.spawner
    }

    /// Returns the bug descriptor emitted by this burst.
    pub fn bug(&self) -> (r: AttackBugDescriptor)
        ensures
            r == self.bug,
    {
        self.bug
    }

    /// Returns the number of bugs emitted by the burst.
    pub fn count(&self) -> (r: NonZeroU32)
        ensures
            r == self.count,
    {
        self.count
    }

    /// Returns the cadence in milliseconds between consecutive spawns.
    pub fn cadence_ms(&self) -> (r: NonZeroU32)
        ensures
            r == self.cadence_ms,
    {
        self.cadence_ms
    }

    /// Returns the start offset in milliseconds relative to the wave start.
    pub fn start_ms(&self) -> (r: u32)
        ensures
            r == self.start_ms,
    {
        self.start_ms
    }
}

/// Authoritative description of a single hand-authored enemy wave.
#[derive(Clone, Debug, PartialEq, Eq)]
pub struct AttackPlan {
    pub pressure: u32,
    pub bursts: Vec<AttackBurst>,
}

impl AttackPlan {
    /// Creates a new attack plan populated with the provided bursts.
    pub fn new(pressure: u32, bursts: Vec<AttackBurst>) -> (p: Self)
        ensures
            p.pressure == pressure,
            p.bursts@ == bursts@,
    {
        Self { pressure, bursts }
    }

    /// Returns the pressure budget associated with this plan.
    pub fn pressure(&self) -> (r: u32)
        ensures
            r == self.pressure,
    {
        self.pressure
    }

    /// The burst descriptors in order.
    pub fn bursts(&self) -> (r: &[AttackBurst])
        ensures
            r@ == self.bursts@,
    {
        self.bursts.as_slice()
    }

    /// Returns whether the plan contains no bursts.
    pub fn is_empty(&self) -> (r: bool)
        ensures
            r == (self.bursts@.len() == 0),
    {
        self.bursts.len() == 0
    }
}

} // verus!
