//! Read-only snapshots that the world hands to systems.

use vstd::prelude::*;
use super::geometry::{CellCoord, CellRect};
use super::values::{BugColor, BugId, Health, TowerId, TowerKind};
use super::time::Duration;
use super::ordering::{is_stable_key_order, stable_sort_by_key, Keyed};

verus! {

/// Permanent structure that occupies a single navigation cell.
#[derive(Clone, Copy, Debug, PartialEq, Eq, Hash, Structural)]
pub struct Wall {
    pub cell: CellCoord,
}

impl Wall {
    /// Creates a wall anchored at the provided cell coordinate.
    pub fn at(cell: CellCoord) -> (w: Self)
        ensures
            w.cell == cell,
    {
        Self { cell }
    }

    /// Returns the cell guarded by the wall.
    pub fn cell(&self) -> (c: CellCoord)
        ensures
            c == self.cell,
    {
        self.cell
    }

    /// Zero-based column index of the wall.
    pub fn column(&self) -> (r: u32)
        ensures
            r == self.cell.column,
    {
        self.cell.column
    }

    /// Zero-based row index of the wall.
    pub fn row(&self) -> (r: u32)
        ensures
            r == self.cell.row,
    {
        self.cell.row
    }
}

/// Column-major order on cells: by column, then by row.
pub open spec fn cell_before(a: CellCoord, b: CellCoord) -> bool {
    a.column < b.column || (a.column == b.column && a.row < b.row)
}

/// Walls ordered strictly by cell (so without repetition).
pub open spec fn walls_strictly_ordered(s: Seq<Wall>) -> bool {
    forall|i: int, j: int| 0 <= i < j < s.len() ==> cell_before(s[i].cell, s[j].cell)
}

/// Read-only snapshot describing all cell-sized walls stored in the world.
#[derive(Clone, Debug, PartialEq, Eq)]
pub struct WallView {
    pub walls: Vec<Wall>,
}

impl WallView {
    /// Creates a view holding each distinct wall of `walls` once, ordered by
    /// column and then by row.
    pub fn from_walls(walls: Vec<Wall>) -> (v: Self)
        ensures
            walls_strictly_ordered(v.walls@),
            forall|w: Wall| v.walls@.contains(w) <==> walls@.contains(w),
    {
        let mut out: Vec<Wall> = Vec::new();
        let n = walls.len();
        let mut i: usize = 0;
        while i < n
            invariant
                n == walls@.len(),
                i <= n,
                walls_strictly_ordered(out@),
                forall|w: Wall| out@.contains(w) <==> walls@.take(i as int).contains(w),
            decreases n - i,
        {
            let w = walls[i];
            let mut j: usize = 0;
            while j < out.len() && (out[j].cell.column < w.cell.column || (out[j].cell.column
                == w.cell.column && out[j].cell.row < w.cell.row))
                invariant
                    j <= out@.len(),
                    forall|t: int| 0 <= t < j ==> cell_before(#[trigger] out@[t].cell, w.cell),
                decreases out@.len() - j,
            {
                j = j + 1;
            }
            let ghost prefix = walls@.take(i as int);
            assert(walls@.take(i + 1) =~= prefix.push(w));
            if j < out.len() && out[j].cell.column == w.cell.column && out[j].cell.row
                == w.cell.row {
                proof {
                    assert(out@[j as int] == w);
                    assert forall|x: Wall| out@.contains(x) <==> walls@.take(i + 1).contains(x) by {
                        if x == w {
                            assert(out@.contains(x));
                            assert(walls@.take(i + 1)[i as int] == w);
                        } else {
                            if walls@.take(i + 1).contains(x) {
                                let k = choose|k: int| 0 <= k < i + 1 && #[trigger] walls@.take(i + 1)[k] == x;
                                assert(prefix[k] == x);
                            }
                        }
                    }
                }
            } else {
                proof {
                    assert forall|t: int| j <= t < out@.len() implies cell_before(
                        w.cell,
                        #[trigger] out@[t].cell,
                    ) by {
                        assert(!cell_before(out@[j as int].cell, w.cell));
                        assert(out@[j as int].cell != w.cell);
                        if t > j {
                            assert(cell_before(out@[j as int].cell, out@[t].cell));
                        }
                    }
                }
                let ghost old_out = out@;
                out.insert(j, w);
                proof {
                    assert forall|a: int, b: int| 0 <= a < b < out@.len() implies cell_before(
                        out@[a].cell,
                        out@[b].cell,
                    ) by {
                        if b < j {
                        } else if b == j {
                        } else if a < j {
                            assert(out@[b] == old_out[b - 1]);
                            if a < j {
                                assert(out@[a] == old_out[a]);
                            }
                        } else if a == j {
                            assert(out@[b] == old_out[b - 1]);
                        } else {
                            assert(out@[a] == old_out[a - 1]);
                            assert(out@[b] == old_out[b - 1]);
                        }
                    }
                    assert forall|x: Wall| out@.contains(x) <==> walls@.take(i + 1).contains(x) by {
                        if out@.contains(x) {
                            let k = choose|k: int| 0 <= k < out@.len() && #[trigger] out@[k] == x;
                            if k != j {
                                let m = if k < j { k } else { k - 1 };
                                assert(old_out[m] == x);
                                assert(old_out.contains(x));
                                assert(prefix.contains(x));
                                let q = choose|q: int| 0 <= q < prefix.len() && #[trigger] prefix[q] == x;
                                assert(walls@.take(i + 1)[q] == x);
                            } else {
                                assert(walls@.take(i + 1)[i as int] == w);
                            }
                        }
                        if walls@.take(i + 1).contains(x) {
                            let k = choose|k: int| 0 <= k < i + 1 && #[trigger] walls@.take(i + 1)[k] == x;
                            if k < i {
                                assert(prefix[k] == x);
                                assert(prefix.contains(x));
                                assert(old_out.contains(x));
                                let m = choose|m: int| 0 <= m < old_out.len() && #[trigger] old_out[m] == x;
                                if m < j {
                                    assert(out@[m] == x);
                                } else {
                                    assert(out@[m + 1] == x);
                                }
                            } else {
                                assert(out@[j as int] == x);
                            }
                        }
                    }
                }
            }
            i = i + 1;
        }
        assert(walls@.take(n as int) =~= walls@);
        Self { walls: out }
    }

    /// The captured walls in deterministic order.
    pub fn iter(&self) -> (r: &[Wall])
        ensures
            r@ == self.walls@,
    {
        self.walls.as_slice()
    }

    /// Consumes the view, yielding the underlying wall descriptors.
    pub fn into_vec(self) -> (r: Vec<Wall>)
        ensures
            r@ == self.walls@,
    {
        self.walls
    }
}

/// Immutable representation of a single bug's state used for queries.
#[derive(Clone, Copy, Debug, PartialEq, Eq, Structural)]
pub struct BugSnapshot {
    /// Unique identifier assigned to the bug.
    pub id: BugId,
    /// Grid cell currently occupied by the bug.
    pub cell: CellCoord,
    /// Appearance assigned to the bug.
    pub color: BugColor,
    /// Maximum health the bug was spawned with.
    pub max_health: Health,
    /// Remaining health stored for the bug.
    pub health: Health,
    /// Cadence in milliseconds that governs when the bug may step.
    pub step_ms: u32,
    /// Accumulated cadence progress measured in milliseconds.
    pub accum_ms: u32,
    /// Whether the bug accrued enough time to advance (`accum_ms >= step_ms`).
    pub ready_for_step: bool,
}

impl Keyed for BugSnapshot {
    open spec fn key_spec(&self) -> u32 {
        self.id.0
    }

    fn key(&self) -> (k: u32) {
        self.id.0
    }
}

/// Read-only snapshot describing all bugs within the maze.
#[derive(Clone, Debug)]
pub struct BugView {
    pub snapshots: Vec<BugSnapshot>,
}

impl BugView {
    /// Creates a view holding the snapshots ordered stably by bug identifier.
    pub fn from_snapshots(snapshots: Vec<BugSnapshot>) -> (v: Self)
        ensures
            is_stable_key_order(snapshots@, v.snapshots@),
            v.snapshots@.len() == snapshots@.len(),
    {
        Self { snapshots: stable_sort_by_key(&snapshots) }
    }

    /// The captured bug snapshots in deterministic order.
    pub fn iter(&self) -> (r: &[BugSnapshot])
        ensures
            r@ == self.snapshots@,
    {
        self.snapshots.as_slice()
    }

    /// Consumes the view, yielding the underlying snapshots.
    pub fn into_vec(self) -> (r: Vec<BugSnapshot>)
        ensures
            r@ == self.snapshots@,
    {
        self.snapshots
    }
}

/// Immutable representation of a single tower's state used for queries.
#[derive(Clone, Copy, Debug, PartialEq, Eq, Structural)]
pub struct TowerSnapshot {
    /// Identifier allocated to the tower by the world.
    pub id: TowerId,
    /// Kind of tower that was constructed.
    pub kind: TowerKind,
    /// Region of cells occupied by the tower.
    pub region: CellRect,
}

impl Keyed for TowerSnapshot {
    open spec fn key_spec(&self) -> u32 {
        self.id.0
    }

    fn key(&self) -> (k: u32) {
        self.id.0
    }
}

/// Read-only snapshot describing all towers placed within the maze.
#[derive(Clone, Debug)]
pub struct TowerView {
    pub snapshots: Vec<TowerSnapshot>,
}

impl TowerView {
    /// Creates a view holding the snapshots ordered stably by tower identifier.
    pub fn from_snapshots(snapshots: Vec<TowerSnapshot>) -> (v: Self)
        ensures
            is_stable_key_order(snapshots@, v.snapshots@),
            v.snapshots@.len() == snapshots@.len(),
    {
        Self { snapshots: stable_sort_by_key(&snapshots) }
    }

    /// The captured tower snapshots in deterministic order.
    pub fn iter(&self) -> (r: &[TowerSnapshot])
        ensures
            r@ == self.snapshots@,
    {
        self.snapshots.as_slice()
    }

    /// Consumes the view, yielding the underlying snapshots.
    pub fn into_vec(self) -> (r: Vec<TowerSnapshot>)
        ensures
            r@ == self.snapshots@,
    {
        self.snapshots
    }
}

/// Immutable representation of a tower's firing cooldown state.
#[derive(Clone, Copy, Debug, PartialEq, Eq)]
pub struct TowerCooldownSnapshot {
    /// Identifier allocated to the tower by the world.
    pub tower: TowerId,
    /// Kind of tower that owns the cooldown.
    pub kind: TowerKind,
    /// Duration remaining before the tower may fire again.
    pub ready_in: Duration,
}

impl Keyed for TowerCooldownSnapshot {
    open spec fn key_spec(&self) -> u32 {
        self.tower.0
    }

    fn key(&self) -> (k: u32) {
        self.tower.0
    }
}

/// Read-only snapshot describing tower cooldown progress.
#[derive(Clone, Debug)]
pub struct TowerCooldownView {
    pub snapshots: Vec<TowerCooldownSnapshot>,
}

impl TowerCooldownView {
    /// Creates a view holding the cooldowns ordered stably by tower identifier.
    pub fn from_snapshots(snapshots: Vec<TowerCooldownSnapshot>) -> (v: Self)
        ensures
            is_stable_key_order(snapshots@, v.snapshots@),
            v.snapshots@.len() == snapshots@.len(),
    {
        Self { snapshots: stable_sort_by_key(&snapshots) }
    }

    /// An empty view.
    pub fn empty() -> (v: Self)
        ensures
            v.snapshots@.len() == 0,
    {
        Self { snapshots: Vec::new() }
    }

    /// Cooldown snapshots in deterministic order.
    pub fn iter(&self) -> (r: &[TowerCooldownSnapshot])
        ensures
            r@ == self.snapshots@,
    {
        self.snapshots.as_slice()
    }

    /// Consumes the view, yielding the underlying cooldown snapshots.
    pub fn into_vec(self) -> (r: Vec<TowerCooldownSnapshot>)
        ensures
            r@ == self.snapshots@,
    {
        self.snapshots
    }
}

} // verus!
