//! Snapshots that analytics metrics read: tower reach and the maze layout.

use vstd::prelude::*;
use super::geometry::{CellCoord, CellRect};
use super::values::{TowerId, TowerKind};

verus! {

/// Analytics-facing description of one placed tower.
#[derive(Clone, Copy, Debug, PartialEq, Eq, Structural)]
pub struct TowerAnalyticsSnapshot {
    /// Identifier allocated to the tower by the world.
    pub tower: TowerId,
    /// Kind of tower that was constructed.
    pub kind: TowerKind,
    /// Region of cells occupied by the tower.
    pub region: CellRect,
    /// Firing range measured in cells.
    pub range_cells: u32,
    /// Damage the tower deals per second.
    pub damage_per_second: u32,
}

/// Read-only collection of tower analytics snapshots.
#[derive(Clone, Debug)]
pub struct TowerAnalyticsView {
    pub snapshots: Vec<TowerAnalyticsSnapshot>,
}

impl TowerAnalyticsView {
    /// Creates a view holding the provided snapshots in the order given.
    pub fn from_snapshots(snapshots: Vec<TowerAnalyticsSnapshot>) -> (v: Self)
        ensures
            v.snapshots@ == snapshots@,
    {
        Self { snapshots }
    }

    /// The captured snapshots.
    pub fn iter(&self) -> (r: &[TowerAnalyticsSnapshot])
        ensures
            r@ == self.snapshots@,
    {
        self.snapshots.as_slice()
    }
}

impl Default for TowerAnalyticsView {
    fn default() -> (v: Self)
        ensures
            v.snapshots@.len() == 0,
    {
        Self { snapshots: Vec::new() }
    }
}

/// Spawner and target cells of the maze at one moment.
#[derive(Clone, Debug)]
pub struct AnalyticsLayoutSnapshot {
    pub spawners: Vec<CellCoord>,
    pub targets: Vec<CellCoord>,
}

impl AnalyticsLayoutSnapshot {
    /// Creates a layout snapshot from spawner and target cells.
    pub fn new(spawners: Vec<CellCoord>, targets: Vec<CellCoord>) -> (s: Self)
        ensures
            s.spawners@ == spawners@,
            s.targets@ == targets@,
    {
        Self { spawners, targets }
    }

    /// Cells from which bugs enter the maze.
    pub fn spawners(&self) -> (r: &[CellCoord])
        ensures
            r@ == self.spawners@,
    {
        self.spawners.as_slice()
    }

    /// Cells that bugs try to reach.
    pub fn targets(&self) -> (r: &[CellCoord])
        ensures
            r@ == self.targets@,
    {
        self.targets.as_slice()
    }
}

} // verus!
