//! The command handler: every permissible world mutation.

use vstd::prelude::*;
use crate::core_types::messages::{Command, Event};
use crate::core_types::time::Duration;
use crate::core_types::values::{RoundOutcome, sat_sub};
use super::combat::{fire_result, tick_result};
use super::motion::{mode_result, spawn_result, step_bug_result};
use super::placement::{placement_result, TowerPlacementCost};
use super::removal::{loss_removal_result, removal_result};
use super::state::{configure_result, grid_fits, World};

verus! {

/// Shortest step quantum a bug may be configured with, in microseconds.
pub const MIN_STEP_QUANTUM_MICROS: u64 = 1;

/// Difficulty levels lost with a round.
pub const ROUND_LOSS_DIFFICULTY_PENALTY: u32 = 1;

/// `w1` and `e1` are the world and event list after `w0` and `e0` resolved a
/// round with `outcome`: a win changes nothing; a loss lowers the difficulty
/// level by the penalty (saturating at zero, announced when it changes) and
/// then removes towers for the lost round.
pub open spec fn round_result(w0: World, w1: World, outcome: RoundOutcome, e0: Seq<Event>, e1: Seq<Event>) -> bool {
    match outcome {
        RoundOutcome::Win => w1 == w0 && e1 =~= e0,
        RoundOutcome::Loss => {
            let level = sat_sub(w0.difficulty_level as int, ROUND_LOSS_DIFFICULTY_PENALTY as int) as u32;
            let lowered = World { difficulty_level: level, ..w0 };
            let announced = if level != w0.difficulty_level {
                e0.push(Event::DifficultyTierChanged { tier: level })
            } else {
                e0
            };
            loss_removal_result(lowered, w1, announced, e1)
        },
    }
}

/// The limits a command must respect: a tile grid small enough to allocate
/// and search, and identifier counters with room for one more bug,
/// projectile or tower.
pub open spec fn command_fits(w: World, command: Command) -> bool {
    match command {
        Command::ConfigureTileGrid { columns, rows, cells_per_tile, .. } => grid_fits(columns, rows, cells_per_tile),
        Command::SpawnBug { .. } => w.next_bug_id < u32::MAX,
        Command::FireProjectile { .. } => w.next_projectile_id.0 < u32::MAX,
        Command::PlaceTower { .. } => w.towers.next_tower_id.0 < u32::MAX,
        Command::ImportTower { .. } => w.towers.next_tower_id.0 < u32::MAX,
        _ => true,
    }
}

/// `w1` and `e1` are the world and event list after `w0` and `e0` applied `command`.
pub open spec fn apply_result(w0: World, w1: World, command: Command, e0: Seq<Event>, e1: Seq<Event>) -> bool {
    match command {
        Command::ConfigureTileGrid { columns, rows, tile_length_bits, cells_per_tile } => configure_result(
            w0,
            w1,
            columns,
            rows,
            tile_length_bits,
            cells_per_tile,
            e0,
            e1,
        ),
        Command::ConfigureBugStep { step_duration } => {
            &&& w1.step_quantum.spec_nanos() == if step_duration.spec_nanos() >= MIN_STEP_QUANTUM_MICROS * 1000 {
                step_duration.spec_nanos()
            } else {
                MIN_STEP_QUANTUM_MICROS * 1000
            }
            &&& w1 == (World { step_quantum: w1.step_quantum, ..w0 })
            &&& e1 =~= e0
        },
        Command::Tick { dt } => tick_result(w0, w1, dt, e0, e1),
        Command::StepBug { bug_id, direction } => step_bug_result(w0, w1, bug_id, direction, e0, e1),
        Command::SetPlayMode { mode } => mode_result(w0, w1, mode, e0, e1),
        Command::SpawnBug { spawner, color, health, step_ms } => spawn_result(
            w0,
            w1,
            spawner,
            color,
            health,
            step_ms,
            e0,
            e1,
        ),
        Command::FireProjectile { tower, target } => fire_result(w0, w1, tower, target, e0, e1),
        Command::PlaceTower { kind, origin } => placement_result(
            w0,
            w1,
            kind,
            origin,
            TowerPlacementCost::SpendGold,
            e0,
            e1,
        ),
        Command::ImportTower { kind, origin } => placement_result(
            w0,
            w1,
            kind,
            origin,
            TowerPlacementCost::IgnoreGold,
            e0,
            e1,
        ),
        Command::RemoveTower { tower } => removal_result(w0, w1, tower, e0, e1),
        Command::ResolveRound { outcome } => round_result(w0, w1, outcome, e0, e1),
    }
}

impl World {
    /// Sets the time a bug must accumulate before each step, never shorter
    /// than one microsecond.
    pub fn configure_bug_step(&mut self, step_duration: Duration)
        ensures
            final(self).step_quantum.spec_nanos() == if step_duration.spec_nanos() >= MIN_STEP_QUANTUM_MICROS
                * 1000 {
                step_duration.spec_nanos()
            } else {
                MIN_STEP_QUANTUM_MICROS * 1000
            },
            *final(self) == (World { step_quantum: final(self).step_quantum, ..*old(self) }),
    {
        self.step_quantum = step_duration.max(Duration::from_micros(MIN_STEP_QUANTUM_MICROS));
    }

    /// Resolves the concluded round (see [`round_result`]).
    pub fn resolve_round(&mut self, outcome: RoundOutcome, out_events: &mut Vec<Event>)
        requires
            old(self).well_formed(),
        ensures
            final(self).well_formed(),
            round_result(*old(self), *final(self), outcome, old(out_events)@, final(out_events)@),
    {
        match outcome {
            RoundOutcome::Win => {},
            RoundOutcome::Loss => {
                let level = if self.difficulty_level >= ROUND_LOSS_DIFFICULTY_PENALTY {
                    self.difficulty_level - ROUND_LOSS_DIFFICULTY_PENALTY
                } else {
                    0
                };
                if level != self.difficulty_level {
                    self.difficulty_level = level;
                    out_events.push(Event::DifficultyTierChanged { tier: level });
                }
                self.remove_towers_after_loss(out_events);
            },
        }
    }
}

/// Applies `command` to the world, announcing what happened in `out_events`
/// (see [`apply_result`]).
pub fn apply(world: &mut World, command: Command, out_events: &mut Vec<Event>)
    requires
        old(world).well_formed(),
        command_fits(*old(world), command),
    ensures
        final(world).well_formed(),
        apply_result(*old(world), *final(world), command, old(out_events)@, final(out_events)@),
{
    match command {
        Command::ConfigureTileGrid { columns, rows, tile_length_bits, cells_per_tile } => {
            world.configure_tile_grid(columns, rows, tile_length_bits, cells_per_tile, out_events);
        },
        Command::ConfigureBugStep { step_duration } => {
            world.configure_bug_step(step_duration);
        },
        Command::Tick { dt } => {
            world.handle_tick(dt, out_events);
        },
        Command::StepBug { bug_id, direction } => {
            world.handle_step_bug(bug_id, direction, out_events);
        },
        Command::SetPlayMode { mode } => {
            let _ = world.transition_to_play_mode(mode, out_events);
        },
        Command::SpawnBug { spawner, color, health, step_ms } => {
            world.handle_spawn_bug(spawner, color, health, step_ms, out_events);
        },
        Command::FireProjectile { tower, target } => {
            world.handle_fire_projectile(tower, target, out_events);
        },
        Command::PlaceTower { kind, origin } => {
            world.handle_place_tower(kind, origin, TowerPlacementCost::SpendGold, out_events);
        },
        Command::ImportTower { kind, origin } => {
            world.handle_place_tower(kind, origin, TowerPlacementCost::IgnoreGold, out_events);
        },
        Command::RemoveTower { tower } => {
            world.handle_remove_tower(tower, out_events);
        },
        Command::ResolveRound { outcome } => {
            world.resolve_round(outcome, out_events);
        },
    }
}

/// Whether `command` respects the limits of [`command_fits`] for `world`,
/// so that [`apply`] may be called with it.
pub fn command_fits_world(world: &World, command: &Command) -> (b: bool)
    ensures
        b == command_fits(*world, *command),
{
    match command {
        Command::ConfigureTileGrid { columns, rows, cells_per_tile, .. } => {
            let cpt: u32 = if *cells_per_tile == 0 { 1 } else { *cells_per_tile };
            let c = super::geometry::total_cell_columns(*columns, cpt) as u128;
            let r = super::geometry::total_cell_rows(*rows, cpt) as u128;
            proof {
                assert(c * r <= 0xffff_ffff * 0xffff_ffffint) by (nonlinear_arith)
                    requires
                        c <= 0xffff_ffff,
                        r <= 0xffff_ffff,
                ;
            }
            let cells = c * r;
            cells <= usize::MAX as u128 && cells < 0xffff_ffff_ffff_fffe
        },
        Command::SpawnBug { .. } => world.next_bug_id < u32::MAX,
        Command::FireProjectile { .. } => world.next_projectile_id.0 < u32::MAX,
        Command::PlaceTower { .. } => world.towers.next_tower_id.0 < u32::MAX,
        Command::ImportTower { .. } => world.towers.next_tower_id.0 < u32::MAX,
        _ => true,
    }
}

} // verus!
