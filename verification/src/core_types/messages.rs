//! Commands that request world mutations and events the world broadcasts.

use vstd::prelude::*;
use super::geometry::{CellCoord, CellRect};
use super::values::{
    BugColor, BugId, Damage, Direction, Gold, Health, PlacementError, PlayMode, ProjectileId,
    ProjectileRejection, RemovalError, RoundOutcome, TileCoord, TowerId, TowerKind,
};
use super::time::Duration;

verus! {

/// Commands that express all permissible world mutations.
#[derive(Clone, Copy, Debug, PartialEq, Eq)]
pub enum Command {
    /// Configures the world's tile grid using the provided dimensions.
    ConfigureTileGrid {
        /// Number of tile columns.
        columns: TileCoord,
        /// Number of tile rows.
        rows: TileCoord,
        /// Bit pattern of the tile side length in world units.
        tile_length_bits: u32,
        /// Number of navigation cells subdividing each tile edge.
        cells_per_tile: u32,
    },
    /// Updates the time a bug must accumulate before attempting another step.
    ConfigureBugStep {
        /// Minimum simulated time between successive bug steps.
        step_duration: Duration,
    },
    /// Advances the simulation clock by the provided delta time.
    Tick {
        /// Simulated time elapsed since the previous tick.
        dt: Duration,
    },
    /// Requests that a bug advance a single step in the specified direction.
    StepBug {
        /// Identifier of the bug attempting to move.
        bug_id: BugId,
        /// Direction of travel.
        direction: Direction,
    },
    /// Requests that the world transition to the provided play mode.
    SetPlayMode {
        /// Mode the world should activate.
        mode: PlayMode,
    },
    /// Requests that a bug spawner emit a new bug into the maze.
    SpawnBug {
        /// Location of the spawner.
        spawner: CellCoord,
        /// Appearance of the spawned bug.
        color: BugColor,
        /// Health of the spawned bug.
        health: Health,
        /// Cadence in milliseconds required between steps.
        step_ms: u32,
    },
    /// Requests that a tower fire a projectile at a targeted bug.
    FireProjectile {
        /// Tower attempting to shoot.
        tower: TowerId,
        /// Targeted bug.
        target: BugId,
    },
    /// Requests placement of a tower anchored at the provided origin cell.
    PlaceTower {
        /// Type of tower to construct.
        kind: TowerKind,
        /// Upper-left cell of the footprint.
        origin: CellCoord,
    },
    /// Places a tower restored from a saved layout without charging gold.
    ImportTower {
        /// Type of tower to construct.
        kind: TowerKind,
        /// Upper-left cell of the footprint.
        origin: CellCoord,
    },
    /// Requests removal of an existing tower from the world.
    RemoveTower {
        /// Tower targeted for removal.
        tower: TowerId,
    },
    /// Resolves the previously concluded round with the provided outcome.
    ResolveRound {
        /// Outcome applied to the world state.
        outcome: RoundOutcome,
    },
}

/// Events broadcast by the world after processing commands.
#[derive(Clone, Copy, Debug, PartialEq, Eq)]
pub enum Event {
    /// The simulation clock advanced.
    TimeAdvanced {
        /// Simulated time that elapsed in the tick.
        dt: Duration,
    },
    /// A bug moved between two cells.
    BugAdvanced {
        /// Bug that advanced.
        bug_id: BugId,
        /// Cell occupied before moving.
        from: CellCoord,
        /// Cell occupied after moving.
        to: CellCoord,
    },
    /// A bug reached the exit and left the maze.
    BugExited {
        /// Bug that exited.
        bug_id: BugId,
        /// Exit cell it entered.
        cell: CellCoord,
    },
    /// The current round ended in defeat.
    RoundLost {
        /// Bug that caused the loss by reaching the exit.
        bug: BugId,
    },
    /// The simulation entered a new play mode.
    PlayModeChanged {
        /// Mode now active.
        mode: PlayMode,
    },
    /// The player's gold balance changed.
    GoldChanged {
        /// Gold owned after the adjustment.
        amount: Gold,
    },
    /// The difficulty tier changed.
    DifficultyTierChanged {
        /// Tier active after the adjustment.
        tier: u32,
    },
    /// A spawner created a bug.
    BugSpawned {
        /// Identifier of the new bug.
        bug_id: BugId,
        /// Cell it occupies.
        cell: CellCoord,
        /// Its appearance.
        color: BugColor,
        /// Its health.
        health: Health,
    },
    /// A tower was placed.
    TowerPlaced {
        /// Identifier assigned to the tower.
        tower: TowerId,
        /// Type of tower.
        kind: TowerKind,
        /// Cells it occupies.
        region: CellRect,
    },
    /// A tower was removed.
    TowerRemoved {
        /// Identifier of the removed tower.
        tower: TowerId,
        /// Cells it occupied.
        region: CellRect,
    },
    /// A placement request was rejected.
    TowerPlacementRejected {
        /// Type of tower requested.
        kind: TowerKind,
        /// Requested origin.
        origin: CellCoord,
        /// Reason for the rejection.
        reason: PlacementError,
    },
    /// A removal request was rejected.
    TowerRemovalRejected {
        /// Tower targeted for removal.
        tower: TowerId,
        /// Reason for the rejection.
        reason: RemovalError,
    },
    /// A projectile was fired.
    ProjectileFired {
        /// Identifier of the projectile.
        projectile: ProjectileId,
        /// Tower that fired it.
        tower: TowerId,
        /// Bug targeted.
        target: BugId,
    },
    /// A projectile reached its target and applied damage.
    ProjectileHit {
        /// Projectile that connected.
        projectile: ProjectileId,
        /// Bug that was struck.
        target: BugId,
        /// Damage applied.
        damage: Damage,
    },
    /// A projectile expired before hitting a living bug.
    ProjectileExpired {
        /// Projectile that expired.
        projectile: ProjectileId,
    },
    /// A firing attempt was rejected.
    ProjectileRejected {
        /// Tower that attempted to fire.
        tower: TowerId,
        /// Intended target.
        target: BugId,
        /// Reason for the rejection.
        reason: ProjectileRejection,
    },
    /// A bug took damage.
    BugDamaged {
        /// Bug that took damage.
        bug: BugId,
        /// Health left.
        remaining: Health,
    },
    /// A bug died because its health reached zero.
    BugDied {
        /// Bug that died.
        bug: BugId,
    },
}

} // verus!
