//! Read-only queries that expose snapshots of the world state.

use vstd::prelude::*;
use crate::core_types::fields::{NavigationFieldView, OccupancyView, ReservationLedgerView, sorted_by_bug_id, sorted_claims};
use crate::core_types::geometry::{CellCoord, CellRect, manhattan, rect_contains};
use crate::core_types::layout::{Goal, ProjectileSnapshot, Target, TileGrid};
use crate::core_types::ordering::is_stable_key_order;
use crate::core_types::values::{Gold, PlayMode, TowerId, WELCOME_BANNER};
use crate::core_types::views::{
    BugSnapshot, BugView, TowerCooldownSnapshot, TowerCooldownView, TowerSnapshot, TowerView, Wall, WallView, walls_strictly_ordered,
};
use super::bugs::Bug;
use super::state::{ProjectileState, World};
use super::towers::TowerState;

verus! {

/// Reports the active play mode for the world.
pub fn play_mode(world: &World) -> (r: PlayMode)
    ensures
        r == world.play_mode,
{
    world.play_mode
}

/// Reports the amount of gold owned by the defender.
pub fn gold(world: &World) -> (r: Gold)
    ensures
        r == world.gold,
{
    world.gold
}

/// Reports the current difficulty level tracked by the world.
pub fn difficulty_level(world: &World) -> (r: u32)
    ensures
        r == world.difficulty_level,
{
    world.difficulty_level
}

/// Retrieves the welcome banner that adapters may display to players.
pub fn welcome_banner(world: &World) -> (r: &'static str)
    ensures
        r@ == WELCOME_BANNER@,
{
    WELCOME_BANNER
}

/// Provides read-only access to the world's tile grid definition.
pub fn tile_grid(world: &World) -> (r: &TileGrid)
    ensures
        *r == world.tile_grid,
{
    &world.tile_grid
}

/// Reports the number of navigation cells contained within a single tile,
/// never less than one.
pub fn cells_per_tile(world: &World) -> (r: u32)
    ensures
        r == if world.cells_per_tile == 0 { 1 } else { world.cells_per_tile },
{
    if world.cells_per_tile == 0 {
        1
    } else {
        world.cells_per_tile
    }
}

/// Provides read-only access to the target carved into the perimeter wall.
pub fn target(world: &World) -> (r: &Target)
    ensures
        *r == world.target,
{
    &world.target
}

/// `a` comes before `b` when choosing a goal from `origin`: closer by
/// Manhattan distance, then smaller column, then smaller row.
pub open spec fn goal_before(origin: CellCoord, a: CellCoord, b: CellCoord) -> bool {
    let da = manhattan(origin, a);
    let db = manhattan(origin, b);
    da < db || (da == db && (a.column < b.column || (a.column == b.column && a.row < b.row)))
}

/// Manhattan distance between two cells, computed without overflow.
fn distance_between(a: CellCoord, b: CellCoord) -> (d: u64)
    ensures
        d == manhattan(a, b),
{
    let dc: u64 = if a.column >= b.column { (a.column - b.column) as u64 } else { (b.column - a.column) as u64 };
    let dr: u64 = if a.row >= b.row { (a.row - b.row) as u64 } else { (b.row - a.row) as u64 };
    dc + dr
}

/// Selects the goal cell nearest to `origin` among `candidates`, ties broken
/// by column and then row; `None` without candidates.
pub fn select_goal(origin: CellCoord, candidates: &[CellCoord]) -> (r: Option<Goal>)
    ensures
        r is None <==> candidates@.len() == 0,
        r matches Some(g) ==> candidates@.contains(g.cell) && forall|i: int|
            0 <= i < candidates@.len() && #[trigger] candidates@[i] != g.cell ==> goal_before(
                origin,
                g.cell,
                candidates@[i],
            ),
{
    if candidates.len() == 0 {
        return None;
    }
    let mut best = candidates[0];
    let mut best_distance = distance_between(origin, best);
    let mut i: usize = 1;
    while i < candidates.len()
        invariant
            1 <= i <= candidates@.len(),
            candidates@.contains(best),
            best_distance == manhattan(origin, best),
            forall|j: int| 0 <= j < i && #[trigger] candidates@[j] != best ==> goal_before(origin, best, candidates@[j]),
        decreases candidates@.len() - i,
    {
        let c = candidates[i];
        let d = distance_between(origin, c);
        if d < best_distance || (d == best_distance && (c.column < best.column || (c.column == best.column && c.row
            < best.row))) {
            best = c;
            best_distance = d;
        }
        i = i + 1;
    }
    Some(Goal::at(best))
}

/// Computes the canonical goal for an entity starting from `origin`: the
/// nearest exit cell (see [`select_goal`]).
pub fn goal_for(world: &World, origin: CellCoord) -> (r: Option<Goal>)
    ensures
        r is None <==> world.targets@.len() == 0,
        r matches Some(g) ==> world.targets@.contains(g.cell) && forall|i: int|
            0 <= i < world.targets@.len() && #[trigger] world.targets@[i] != g.cell ==> goal_before(
                origin,
                g.cell,
                world.targets@[i],
            ),
{
    select_goal(origin, world.targets.as_slice())
}

/// The snapshot describing bug `b`.
pub open spec fn snapshot_of(b: Bug) -> BugSnapshot {
    BugSnapshot {
        id: b.id,
        cell: b.cell,
        color: b.color,
        max_health: b.max_health,
        health: b.health,
        step_ms: b.step_ms,
        accum_ms: b.accum_ms,
        ready_for_step: b.accum_ms >= b.step_ms,
    }
}

/// Snapshots of the living bugs of `bugs`, in order.
pub open spec fn living_snapshots(bugs: Seq<Bug>) -> Seq<BugSnapshot>
    decreases bugs.len(),
{
    if bugs.len() == 0 {
        Seq::empty()
    } else {
        let rest = living_snapshots(bugs.drop_last());
        if bugs.last().health.0 != 0 {
            rest.push(snapshot_of(bugs.last()))
        } else {
            rest
        }
    }
}

/// Captures a read-only view of the living bugs, ordered by identifier.
pub fn bug_view(world: &World) -> (v: BugView)
    ensures
        is_stable_key_order(living_snapshots(world.bugs@), v.snapshots@),
        v.snapshots@.len() == living_snapshots(world.bugs@).len(),
{
    let mut snapshots: Vec<BugSnapshot> = Vec::new();
    let mut i: usize = 0;
    assert(world.bugs@.take(0) =~= Seq::<Bug>::empty());
    while i < world.bugs.len()
        invariant
            i <= world.bugs@.len(),
            snapshots@ == living_snapshots(world.bugs@.take(i as int)),
        decreases world.bugs@.len() - i,
    {
        let bug = world.bugs[i];
        proof {
            assert(world.bugs@.take(i + 1).drop_last() =~= world.bugs@.take(i as int));
            assert(world.bugs@.take(i + 1).last() == bug);
        }
        if !bug.health.is_zero() {
            snapshots.push(
                BugSnapshot {
                    id: bug.id,
                    cell: bug.cell,
                    color: bug.color,
                    max_health: bug.max_health,
                    health: bug.health,
                    step_ms: bug.step_ms,
                    accum_ms: bug.accum_ms,
                    ready_for_step: bug.ready_for_step(),
                },
            );
        }
        i = i + 1;
    }
    assert(world.bugs@.take(world.bugs@.len() as int) =~= world.bugs@);
    BugView::from_snapshots(snapshots)
}

/// Provides a view of the navigation distances, in row-major order with the
/// exit row included.
pub fn navigation_field(world: &World) -> (v: NavigationFieldView)
    requires
        world.well_formed(),
    ensures
        v.width == world.navigation_field.width,
        v.height == world.navigation_field.height,
        v.distances@ == world.navigation_field.distances@,
{
    NavigationFieldView::from_slice(
        world.navigation_field.cells(),
        world.navigation_field.width(),
        world.navigation_field.height(),
    )
}

/// Exposes a view of the dense occupancy grid.
pub fn occupancy_view(world: &World) -> (v: OccupancyView)
    ensures
        v.cells@ == world.occupancy.cells@,
        v.columns == world.occupancy.columns,
        v.rows == world.occupancy.rows,
{
    let (columns, rows) = world.occupancy.dimensions();
    OccupancyView::new(vstd::slice::slice_to_vec(world.occupancy.cells()), columns, rows)
}

/// Captures a view of the pending movement reservations.
pub fn reservation_ledger(world: &World) -> (v: ReservationLedgerView)
    ensures
        v.claims@ == sorted_claims(world.reservations.claims@),
        sorted_by_bug_id(v.claims@),
{
    ReservationLedgerView::from_slice(world.reservations.claims())
}

/// Captures a view of the cell-sized walls stored in the world.
pub fn walls(world: &World) -> (v: WallView)
    ensures
        walls_strictly_ordered(v.walls@),
        forall|w: Wall| v.walls@.contains(w) <==> world.walls.walls@.contains(w),
{
    WallView::from_walls(vstd::slice::slice_to_vec(world.walls.walls()))
}

/// The snapshot describing tower `t`.
pub open spec fn tower_snapshot_of(t: TowerState) -> TowerSnapshot {
    TowerSnapshot { id: t.id, kind: t.kind, region: t.region }
}

/// Captures a snapshot of all towers stored in the world, ordered by identifier.
pub fn towers(world: &World) -> (v: TowerView)
    ensures
        is_stable_key_order(world.towers.entries@.map_values(|t: TowerState| tower_snapshot_of(t)), v.snapshots@),
        v.snapshots@.len() == world.towers.entries@.len(),
{
    if world.towers.is_empty() {
        let v = TowerView::from_snapshots(Vec::new());
        assert(world.towers.entries@.map_values(|t: TowerState| tower_snapshot_of(t)) =~= Seq::<
            TowerSnapshot,
        >::empty());
        return v;
    }
    let entries = world.towers.iter();
    let mut snapshots: Vec<TowerSnapshot> = Vec::new();
    let mut i: usize = 0;
    while i < entries.len()
        invariant
            entries@ == world.towers.entries@,
            i <= entries@.len(),
            snapshots@ == entries@.take(i as int).map_values(|t: TowerState| tower_snapshot_of(t)),
        decreases entries@.len() - i,
    {
        let t = entries[i];
        snapshots.push(TowerSnapshot { id: t.id, kind: t.kind, region: t.region });
        i = i + 1;
        assert(snapshots@ =~= entries@.take(i as int).map_values(|t: TowerState| tower_snapshot_of(t)));
    }
    assert(entries@.take(entries@.len() as int) =~= entries@);
    TowerView::from_snapshots(snapshots)
}

/// Reports whether `cell` is blocked: outside the grid, or holding a bug, a
/// wall or a tower.
pub fn is_cell_blocked(world: &World, cell: CellCoord) -> (b: bool)
    requires
        world.well_formed(),
    ensures
        b == (!crate::world::grid_math::in_grid(cell, world.columns() as int, world.rows() as int)
            || world.occupancy.occupant(cell) is Some || world.walls.grid.has(cell) || world.tower_occupancy.has(
            cell,
        )),
{
    if world.occupancy.index(cell).is_none() || !world.occupancy.can_enter(cell) {
        return true;
    }
    if world.walls.contains(cell) {
        return true;
    }
    if world.tower_occupancy.contains(cell) {
        return true;
    }
    false
}

/// Whether `cell` is blocked in `world` (see [`is_cell_blocked`]).
pub open spec fn cell_blocked(world: World, cell: CellCoord) -> bool {
    !crate::world::grid_math::in_grid(cell, world.columns() as int, world.rows() as int)
        || world.occupancy.occupant(cell) is Some || world.walls.grid.has(cell) || world.tower_occupancy.has(cell)
}

/// Whether a tower could stand on `region`: it covers at least one cell,
/// its cells have `u32` coordinates, and none of them is blocked.
pub open spec fn region_placeable(world: World, region: CellRect) -> bool {
    &&& region.size.width > 0
    &&& region.size.height > 0
    &&& region.origin.column + region.size.width - 1 <= u32::MAX
    &&& region.origin.row + region.size.height - 1 <= u32::MAX
    &&& forall|c: CellCoord| #[trigger] rect_contains(region, c) ==> !cell_blocked(world, c)
}

/// Checks whether every cell of `region` is free (see [`region_placeable`]).
pub fn region_is_placeable(world: &World, region: CellRect) -> (b: bool)
    requires
        world.well_formed(),
    ensures
        b == region_placeable(*world, region),
{
    let width = region.size.width;
    let height = region.size.height;
    if width == 0 || height == 0 {
        return false;
    }
    let origin = region.origin;
    let mut column_offset: u32 = 0;
    while column_offset < width
        invariant
            world.well_formed(),
            width == region.size.width,
            height == region.size.height,
            origin == region.origin,
            height > 0,
            column_offset <= width,
            origin.column + column_offset - 1 <= u32::MAX,
            origin.row + height - 1 <= u32::MAX || column_offset == 0,
            forall|c: CellCoord|
                #![trigger rect_contains(region, c)]
                rect_contains(region, c) && c.column < origin.column + column_offset ==> !cell_blocked(*world, c),
        decreases width - column_offset,
    {
        if origin.column > u32::MAX - column_offset {
            proof {
                assert(!region_placeable(*world, region));
            }
            return false;
        }
        let column = origin.column + column_offset;
        let mut row_offset: u32 = 0;
        while row_offset < height
            invariant
                world.well_formed(),
                width == region.size.width,
                height == region.size.height,
                origin == region.origin,
                column == origin.column + column_offset,
                column_offset < width,
                row_offset <= height,
                origin.row + row_offset - 1 <= u32::MAX,
                forall|c: CellCoord|
                    #![trigger cell_blocked(*world, c)]
                    c.column == column && origin.row <= c.row < origin.row + row_offset ==> !cell_blocked(*world, c),
            decreases height - row_offset,
        {
            if origin.row > u32::MAX - row_offset {
                proof {
                    assert(!region_placeable(*world, region));
                }
                return false;
            }
            let cell = CellCoord::new(column, origin.row + row_offset);
            if is_cell_blocked(world, cell) {
                proof {
                    assert(rect_contains(region, cell));
                }
                return false;
            }
            row_offset = row_offset + 1;
        }
        proof {
            assert forall|c: CellCoord|
                #![trigger rect_contains(region, c)]
                rect_contains(region, c) && c.column < origin.column + column_offset + 1 implies !cell_blocked(
                *world,
                c,
            ) by {
            }
        }
        column_offset = column_offset + 1;
    }
    true
}

/// Identifies the tower whose footprint covers `cell`, if any.
pub fn tower_at(world: &World, cell: CellCoord) -> (r: Option<TowerId>)
    requires
        world.well_formed(),
    ensures
        r is None <==> !world.tower_occupancy.has(cell),
        r matches Some(id) ==> exists|i: int|
            0 <= i < world.towers.entries@.len() && #[trigger] world.towers.entries@[i].id == id && rect_contains(
                world.towers.entries@[i].region,
                cell,
            ),
{
    if !world.tower_occupancy.contains(cell) {
        return None;
    }
    let entries = world.towers.iter();
    let mut i: usize = 0;
    while i < entries.len()
        invariant
            entries@ == world.towers.entries@,
            i <= entries@.len(),
            world.well_formed(),
            world.tower_occupancy.has(cell),
            forall|j: int| 0 <= j < i ==> !rect_contains(#[trigger] entries@[j].region, cell),
        decreases entries@.len() - i,
    {
        if entries[i].region.contains(cell) {
            return Some(entries[i].id);
        }
        i = i + 1;
    }
    proof {
        let k = choose|k: int| 0 <= k < entries@.len() && rect_contains(#[trigger] entries@[k].region, cell);
        assert(!rect_contains(entries@[k].region, cell));
    }
    None
}

/// The cooldown snapshot describing tower `t`.
pub open spec fn cooldown_snapshot_of(t: TowerState) -> TowerCooldownSnapshot {
    TowerCooldownSnapshot { tower: t.id, kind: t.kind, ready_in: t.cooldown_remaining }
}

/// Captures a snapshot of tower cooldown progress, ordered by identifier.
pub fn tower_cooldowns(world: &World) -> (v: TowerCooldownView)
    ensures
        is_stable_key_order(
            world.towers.entries@.map_values(|t: TowerState| cooldown_snapshot_of(t)),
            v.snapshots@,
        ),
        v.snapshots@.len() == world.towers.entries@.len(),
{
    let entries = world.towers.iter();
    let mut snapshots: Vec<TowerCooldownSnapshot> = Vec::new();
    let mut i: usize = 0;
    while i < entries.len()
        invariant
            entries@ == world.towers.entries@,
            i <= entries@.len(),
            snapshots@ == entries@.take(i as int).map_values(|t: TowerState| cooldown_snapshot_of(t)),
        decreases entries@.len() - i,
    {
        let t = entries[i];
        snapshots.push(TowerCooldownSnapshot { tower: t.id, kind: t.kind, ready_in: t.cooldown_remaining });
        i = i + 1;
        assert(snapshots@ =~= entries@.take(i as int).map_values(|t: TowerState| cooldown_snapshot_of(t)));
    }
    assert(entries@.take(entries@.len() as int) =~= entries@);
    TowerCooldownView::from_snapshots(snapshots)
}

/// Enumerates the exit cells bugs should attempt to reach.
pub fn target_cells(world: &World) -> (r: Vec<CellCoord>)
    ensures
        r@ == world.targets@,
{
    vstd::slice::slice_to_vec(world.targets.as_slice())
}

/// Enumerates the bug spawners ringing the maze, in column-then-row order.
pub fn bug_spawners(world: &World) -> (r: Vec<CellCoord>)
    ensures
        r@ == world.bug_spawners.cells@,
{
    vstd::slice::slice_to_vec(world.bug_spawners.iter())
}

/// The snapshot describing projectile `p`.
pub open spec fn projectile_snapshot_of(p: ProjectileState) -> ProjectileSnapshot {
    ProjectileSnapshot {
        projectile: p.id,
        tower: p.tower,
        target: p.target,
        origin_half: p.start,
        dest_half: p.end,
        distance_half: p.distance_half,
        travelled_half: p.travelled_half,
    }
}

/// Snapshots of the projectiles in flight, ordered by identifier.
pub fn projectiles(world: &World) -> (r: Vec<ProjectileSnapshot>)
    ensures
        r@ == world.projectiles@.map_values(|p: ProjectileState| projectile_snapshot_of(p)),
{
    let mut out: Vec<ProjectileSnapshot> = Vec::new();
    let mut i: usize = 0;
    while i < world.projectiles.len()
        invariant
            i <= world.projectiles@.len(),
            out@ == world.projectiles@.take(i as int).map_values(|p: ProjectileState| projectile_snapshot_of(p)),
        decreases world.projectiles@.len() - i,
    {
        let p = world.projectiles[i];
        out.push(
            ProjectileSnapshot {
                projectile: p.id,
                tower: p.tower,
                target: p.target,
                origin_half: p.start,
                dest_half: p.end,
                distance_half: p.distance_half,
                travelled_half: p.travelled_half,
            },
        );
        i = i + 1;
        assert(out@ =~= world.projectiles@.take(i as int).map_values(
            |p: ProjectileState| projectile_snapshot_of(p),
        ));
    }
    assert(world.projectiles@.take(world.projectiles@.len() as int) =~= world.projectiles@);
    out
}

/// The row-major mask of blocked cells (see [`is_cell_blocked`]), one entry
/// per cell of the grid; movement planning reads it.
pub fn blocked_cells(world: &World) -> (mask: Vec<bool>)
    requires
        world.well_formed(),
    ensures
        mask@.len() == world.columns() * world.rows(),
        forall|i: int| 0 <= i < mask@.len() ==> #[trigger] mask@[i] == {
            let c = crate::world::grid_math::cell_of_index(i, world.columns() as int);
            world.occupancy.occupant(c) is Some || world.walls.grid.has(c) || world.tower_occupancy.has(c)
        },
{
    let columns = world.occupancy.columns;
    let n = world.occupancy.cells.len();
    let mut mask: Vec<bool> = Vec::new();
    let mut i: usize = 0;
    while i < n
        invariant
            world.well_formed(),
            columns == world.columns(),
            n == world.columns() * world.rows(),
            i <= n,
            mask@.len() == i,
            forall|j: int| 0 <= j < i ==> #[trigger] mask@[j] == {
                let c = crate::world::grid_math::cell_of_index(j, columns as int);
                world.occupancy.occupant(c) is Some || world.walls.grid.has(c) || world.tower_occupancy.has(c)
            },
        decreases n - i,
    {
        proof {
            assert(columns > 0) by (nonlinear_arith)
                requires
                    i < n,
                    n == columns * world.rows(),
            ;
        }
        let c = CellCoord { column: (i % columns as usize) as u32, row: (i / columns as usize) as u32 };
        assert(c == crate::world::grid_math::cell_of_index(i as int, columns as int));
        let blocked = !world.occupancy.can_enter(c) || world.walls.contains(c) || world.tower_occupancy.contains(c);
        mask.push(blocked);
        i = i + 1;
    }
    mask
}

} // verus!
