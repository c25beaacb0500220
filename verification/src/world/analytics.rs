//! Immutable analytics snapshots taken from the authoritative world state.

use vstd::prelude::*;
use crate::core_types::analytics::{AnalyticsLayoutSnapshot, TowerAnalyticsSnapshot, TowerAnalyticsView};
use crate::core_types::values::{spec_fire_cooldown_ms, spec_projectile_damage, spec_range_in_cells, TowerKind};
use super::state::World;
use super::towers::TowerState;

verus! {

/// Damage per second of a tower kind: projectile damage times 1 000 over the
/// cooldown in milliseconds (at least one), rounded down.
pub open spec fn tower_dps(kind: TowerKind) -> int {
    let cooldown = if spec_fire_cooldown_ms(kind) == 0 { 1 } else { spec_fire_cooldown_ms(kind) as int };
    (spec_projectile_damage(kind) * 1_000) / cooldown
}

/// Computes the damage per second of a tower kind (see [`tower_dps`]),
/// clamped to `u32::MAX`.
pub fn compute_tower_dps(kind: TowerKind) -> (r: u32)
    ensures
        r == (if tower_dps(kind) > u32::MAX { u32::MAX as int } else { tower_dps(kind) }),
{
    let damage = kind.projectile_damage().0 as u64;
    let cooldown = kind.fire_cooldown_ms();
    let cooldown_ms: u64 = if cooldown == 0 { 1 } else { cooldown as u64 };
    let per_second = damage * 1_000 / cooldown_ms;
    if per_second > u32::MAX as u64 {
        u32::MAX
    } else {
        per_second as u32
    }
}

/// The analytics snapshot of tower `t` in a world with `cells_per_tile`.
pub open spec fn analytics_snapshot_of(t: TowerState, cells_per_tile: u32) -> TowerAnalyticsSnapshot {
    let cpt = if cells_per_tile == 0 { 1 } else { cells_per_tile as int };
    TowerAnalyticsSnapshot {
        tower: t.id,
        kind: t.kind,
        region: t.region,
        range_cells: spec_range_in_cells(t.kind, cpt) as u32,
        damage_per_second: (if tower_dps(t.kind) > u32::MAX { u32::MAX as int } else { tower_dps(t.kind) }) as u32,
    }
}

/// Snapshots spawner and target cells without changing the world.
pub fn layout_snapshot(world: &World) -> (s: AnalyticsLayoutSnapshot)
    ensures
        s.spawners@ == world.bug_spawners.cells@,
        s.targets@ == world.targets@,
{
    let spawners = vstd::slice::slice_to_vec(world.bug_spawners.iter());
    let targets = vstd::slice::slice_to_vec(world.targets.as_slice());
    AnalyticsLayoutSnapshot::new(spawners, targets)
}

/// Captures range and damage figures of every tower, in registry order.
pub fn tower_view(world: &World) -> (v: TowerAnalyticsView)
    ensures
        v.snapshots@.len() == world.towers.entries@.len(),
        forall|i: int|
            0 <= i < v.snapshots@.len() ==> #[trigger] v.snapshots@[i] == analytics_snapshot_of(
                world.towers.entries@[i],
                world.cells_per_tile,
            ),
{
    let entries = world.towers.iter();
    let cells_per_tile: u32 = if world.cells_per_tile == 0 { 1 } else { world.cells_per_tile };
    let mut snapshots: Vec<TowerAnalyticsSnapshot> = Vec::new();
    let mut i: usize = 0;
    while i < entries.len()
        invariant
            i <= entries@.len(),
            entries@ == world.towers.entries@,
            cells_per_tile == (if world.cells_per_tile == 0 { 1 } else { world.cells_per_tile }),
            snapshots@.len() == i,
            forall|k: int|
                0 <= k < i ==> #[trigger] snapshots@[k] == analytics_snapshot_of(
                    world.towers.entries@[k],
                    world.cells_per_tile,
                ),
        decreases entries@.len() - i,
    {
        let tower = &entries[i];
        let snapshot = TowerAnalyticsSnapshot {
            tower: tower.id,
            kind: tower.kind,
            region: tower.region,
            range_cells: tower.kind.range_in_cells(cells_per_tile),
            damage_per_second: compute_tower_dps(tower.kind),
        };
        snapshots.push(snapshot);
        i = i + 1;
    }
    TowerAnalyticsView::from_snapshots(snapshots)
}

} // verus!
