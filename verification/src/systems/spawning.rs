//! Deterministic spawning: bugs released from spawners at a fixed cadence.

use vstd::prelude::*;
use crate::core_types::geometry::CellCoord;
use crate::core_types::messages::{Command, Event};
use crate::core_types::time::{Duration, max_nanos};
use crate::core_types::values::{BugColor, Health, PlayMode};

verus! {

/// Multiplier of the spawner-selection generator.
pub const RNG_MULTIPLIER: u64 = 6_364_136_223_846_793_005;
/// Increment of the spawner-selection generator.
pub const RNG_INCREMENT: u64 = 1;
/// Health of the bugs the spawning system releases.
pub const SPAWNED_BUG_HEALTH: u32 = 3;
/// Step cadence, in milliseconds, of the bugs the spawning system releases.
pub const SPAWNED_BUG_STEP_MS: u32 = 250;

/// The spawn colours, cycled in order.
pub open spec fn spawn_color(index: int) -> BugColor {
    if index % 4 == 0 {
        BugColor { red: 0x2f, green: 0x95, blue: 0x32 }
    } else if index % 4 == 1 {
        BugColor { red: 0xc8, green: 0x2a, blue: 0x36 }
    } else if index % 4 == 2 {
        BugColor { red: 0xff, green: 0xc1, blue: 0x07 }
    } else {
        BugColor { red: 0x58, green: 0x47, blue: 0xff }
    }
}

/// One step of the linear congruential generator: `state * multiplier + increment` modulo 2^64.
pub open spec fn lcg_next(state: u64) -> u64 {
    ((state * RNG_MULTIPLIER + RNG_INCREMENT) % 0x1_0000_0000_0000_0000) as u64
}

/// The generator state after `n` steps from `state`.
pub open spec fn lcg_iter(state: u64, n: nat) -> u64
    decreases n,
{
    if n == 0 {
        state
    } else {
        lcg_next(lcg_iter(state, (n - 1) as nat))
    }
}

/// The `k`-th spawn command issued from generator state `rng` and colour
/// position `color`: it uses the spawner picked by the generator's `k + 1`-th
/// value and the colour `k` places further along the cycle.
pub open spec fn spawn_command(rng: u64, color: int, k: int, spawners: Seq<CellCoord>) -> Command {
    Command::SpawnBug {
        spawner: spawners[(lcg_iter(rng, (k + 1) as nat) % (spawners.len() as u64)) as int],
        color: spawn_color(color + k),
        health: Health(SPAWNED_BUG_HEALTH),
        step_ms: SPAWNED_BUG_STEP_MS,
    }
}

/// The first `n` spawn commands issued from generator state `rng` and colour position `color`.
pub open spec fn spawn_commands(rng: u64, color: int, n: nat, spawners: Seq<CellCoord>) -> Seq<Command> {
    Seq::new(n, |k: int| spawn_command(rng, color, k, spawners))
}

/// Total simulated time announced by the `TimeAdvanced` events of `events`,
/// saturating at the largest span.
pub open spec fn advanced_nanos(events: Seq<Event>) -> int
    decreases events.len(),
{
    if events.len() == 0 {
        0
    } else {
        let rest = advanced_nanos(events.drop_last());
        match events.last() {
            Event::TimeAdvanced { dt } => if rest + dt.spec_nanos() > max_nanos() {
                max_nanos()
            } else {
                rest + dt.spec_nanos()
            },
            _ => rest,
        }
    }
}

/// Colour positions advance one step along the cycle of four.
proof fn lemma_color_step(start: int, color0: int, k: int)
    requires
        start >= 0,
        color0 == start % 4,
        k >= 0,
    ensures
        (if k == 0 { start } else { (color0 + k) % 4 }) % 4 == (color0 + k) % 4,
        ((if k == 0 { start } else { (color0 + k) % 4 }) % 4 + 1) % 4 == (color0 + k + 1) % 4,
{
    assert(((color0 + k) % 4) % 4 == (color0 + k) % 4) by (nonlinear_arith)
        requires
            color0 + k >= 0,
    ;
    assert(((color0 + k) % 4 + 1) % 4 == (color0 + k + 1) % 4) by (nonlinear_arith)
        requires
            color0 + k >= 0,
    ;
    assert((start % 4 + 1) % 4 == (start % 4 + 1) % 4);
}

/// Total simulated time announced by the `TimeAdvanced` events of `events`.
fn advanced_time(events: &[Event]) -> (d: Duration)
    ensures
        d.spec_nanos() == advanced_nanos(events@),
{
    let mut accumulated = Duration::zero();
    let mut i: usize = 0;
    assert(events@.take(0) =~= Seq::<Event>::empty());
    while i < events.len()
        invariant
            i <= events@.len(),
            accumulated.spec_nanos() == advanced_nanos(events@.take(i as int)),
        decreases events@.len() - i,
    {
        proof {
            assert(events@.take(i + 1).drop_last() =~= events@.take(i as int));
            assert(events@.take(i + 1).last() == events@[i as int]);
        }
        match &events[i] {
            Event::TimeAdvanced { dt } => {
                accumulated = accumulated.saturating_add(*dt);
            },
            _ => {},
        }
        i = i + 1;
    }
    assert(events@.take(events@.len() as int) =~= events@);
    accumulated
}

/// Configuration parameters required to construct the spawning system.
#[derive(Clone, Copy, Debug)]
pub struct Config {
    pub spawn_interval: Duration,
    pub rng_seed: u64,
}

impl Config {
    /// Creates a new configuration using the provided spawn cadence and seed.
    pub fn new(spawn_interval: Duration, rng_seed: u64) -> (c: Self)
        ensures
            c.spawn_interval == spawn_interval,
            c.rng_seed == rng_seed,
    {
        Config { spawn_interval, rng_seed }
    }
}

/// Spawning system: releases bugs in attack mode at a fixed cadence.
#[derive(Debug)]
pub struct Spawning {
    pub spawn_interval: Duration,
    pub accumulator: Duration,
    pub rng_state: u64,
    pub color_index: usize,
}

impl Spawning {
    /// Creates a spawning system with an empty accumulator.
    pub fn new(config: Config) -> (s: Self)
        ensures
            s.spawn_interval == config.spawn_interval,
            s.accumulator.spec_nanos() == 0,
            s.rng_state == config.rng_seed,
            s.color_index == 0,
    {
        Spawning { spawn_interval: config.spawn_interval, accumulator: Duration::zero(), rng_state: config.rng_seed, color_index: 0 }
    }

    /// Reacts to a frame's events: outside attack mode the accumulator is
    /// emptied; otherwise, with a spawn interval and spawners, the time the
    /// events advanced is accumulated and one bug is released per whole
    /// interval accumulated, each from a spawner picked by the generator and
    /// with the next colour of the cycle.
    pub fn handle(&mut self, events: &[Event], play_mode: PlayMode, spawners: &[CellCoord], out: &mut Vec<Command>)
        ensures
            play_mode != PlayMode::Attack ==> {
                &&& final(self).accumulator.spec_nanos() == 0
                &&& final(self).spawn_interval == old(self).spawn_interval
                &&& final(self).rng_state == old(self).rng_state
                &&& final(self).color_index == old(self).color_index
                &&& final(out)@ == old(out)@
            },
            play_mode == PlayMode::Attack && (old(self).spawn_interval.spec_nanos() == 0 || spawners@.len() == 0
                || advanced_nanos(events@) == 0) ==> {
                &&& *final(self) == *old(self)
                &&& final(out)@ == old(out)@
            },
            play_mode == PlayMode::Attack && old(self).spawn_interval.spec_nanos() != 0 && spawners@.len() != 0
                && advanced_nanos(events@) != 0 ==> {
                let total = if old(self).accumulator.spec_nanos() + advanced_nanos(events@) > max_nanos() {
                    max_nanos()
                } else {
                    old(self).accumulator.spec_nanos() + advanced_nanos(events@)
                };
                let interval = old(self).spawn_interval.spec_nanos();
                let n = if total / interval > usize::MAX { usize::MAX as int } else { total / interval };
                &&& final(self).accumulator.spec_nanos() == total - n * interval
                &&& final(self).spawn_interval == old(self).spawn_interval
                &&& final(self).rng_state == lcg_iter(old(self).rng_state, n as nat)
                &&& final(self).color_index == if n == 0 {
                    old(self).color_index as int
                } else {
                    (old(self).color_index % 4 + n) % 4
                }
                &&& final(out)@ == old(out)@ + spawn_commands(
                    old(self).rng_state,
                    (old(self).color_index % 4) as int,
                    n as nat,
                    spawners@,
                )
            },
    {
        if play_mode != PlayMode::Attack {
            self.accumulator = Duration::zero();
            return;
        }
        if self.spawn_interval.is_zero() || spawners.len() == 0 {
            return;
        }
        let accumulated = advanced_time(events);
        if accumulated.is_zero() {
            return;
        }
        self.accumulator = self.accumulator.saturating_add(accumulated);
        let attempts = self.resolve_spawn_attempts();
        self.emit_spawns(attempts, spawners, out);
    }

    /// Issues `attempts` spawn commands (see [`spawn_commands`]).
    fn emit_spawns(&mut self, attempts: usize, spawners: &[CellCoord], out: &mut Vec<Command>)
        requires
            spawners@.len() > 0,
        ensures
            final(self).spawn_interval == old(self).spawn_interval,
            final(self).accumulator == old(self).accumulator,
            final(self).rng_state == lcg_iter(old(self).rng_state, attempts as nat),
            final(self).color_index == if attempts == 0 {
                old(self).color_index as int
            } else {
                (old(self).color_index % 4 + attempts) % 4
            },
            final(out)@ == old(out)@ + spawn_commands(
                old(self).rng_state,
                (old(self).color_index % 4) as int,
                attempts as nat,
                spawners@,
            ),
    {
        let ghost rng0 = old(self).rng_state;
        let ghost color0: int = (old(self).color_index % 4) as int;
        let ghost start = out@;
        let mut k: usize = 0;
        assert(start + spawn_commands(rng0, color0, 0, spawners@) =~= start);
        while k < attempts
            invariant
                k <= attempts,
                spawners@.len() > 0,
                self.spawn_interval == old(self).spawn_interval,
                self.accumulator == old(self).accumulator,
                self.rng_state == lcg_iter(rng0, k as nat),
                self.color_index == if k == 0 { old(self).color_index as int } else { (color0 + k) % 4 },
                color0 == old(self).color_index % 4,
                out@ == start + spawn_commands(rng0, color0, k as nat, spawners@),
            decreases attempts - k,
        {
            let ghost before = out@;
            proof {
                lemma_color_step(old(self).color_index as int, color0, k as int);
            }
            let spawner = self.select_spawner(spawners);
            let color = self.next_color();
            out.push(
                Command::SpawnBug {
                    spawner,
                    color,
                    health: Health::new(SPAWNED_BUG_HEALTH),
                    step_ms: SPAWNED_BUG_STEP_MS,
                },
            );
            proof {
                assert(out@[out@.len() - 1] == spawn_command(rng0, color0, k as int, spawners@));
                assert(spawn_commands(rng0, color0, (k + 1) as nat, spawners@) =~= spawn_commands(
                    rng0,
                    color0,
                    k as nat,
                    spawners@,
                ).push(spawn_command(rng0, color0, k as int, spawners@)));
                assert(out@ =~= start + spawn_commands(rng0, color0, (k + 1) as nat, spawners@));
            }
            k = k + 1;
        }
    }

    /// Converts whole spawn intervals of the accumulator into spawn attempts
    /// (at most `usize::MAX`), keeping the remainder; none without an interval.
    pub fn resolve_spawn_attempts(&mut self) -> (attempts: usize)
        ensures
            final(self).spawn_interval == old(self).spawn_interval,
            final(self).rng_state == old(self).rng_state,
            final(self).color_index == old(self).color_index,
            old(self).spawn_interval.spec_nanos() == 0 ==> attempts == 0 && final(self).accumulator
                == old(self).accumulator,
            old(self).spawn_interval.spec_nanos() != 0 ==> {
                let acc = old(self).accumulator.spec_nanos();
                let interval = old(self).spawn_interval.spec_nanos();
                &&& attempts == if acc / interval > usize::MAX { usize::MAX as int } else { acc / interval }
                &&& final(self).accumulator.spec_nanos() == acc - attempts * interval
            },
    {
        if self.spawn_interval.is_zero() {
            return 0;
        }
        let ghost acc0 = self.accumulator.spec_nanos();
        let ghost interval = self.spawn_interval.spec_nanos();
        proof {
            self.spawn_interval.lemma_nanos_nonnegative();
            self.accumulator.lemma_nanos_nonnegative();
        }
        let mut attempts: usize = 0;
        while attempts < usize::MAX && self.accumulator.at_least(&self.spawn_interval)
            invariant
                self.spawn_interval == old(self).spawn_interval,
                self.rng_state == old(self).rng_state,
                self.color_index == old(self).color_index,
                interval == self.spawn_interval.spec_nanos(),
                interval > 0,
                acc0 == old(self).accumulator.spec_nanos(),
                self.accumulator.spec_nanos() == acc0 - attempts * interval,
                self.accumulator.spec_nanos() >= 0,
            decreases self.accumulator.spec_nanos(),
        {
            self.accumulator = self.accumulator.saturating_sub(self.spawn_interval);
            proof {
                assert((attempts + 1) * interval == attempts * interval + interval) by (nonlinear_arith);
            }
            attempts = attempts + 1;
        }
        proof {
            let a = attempts as int;
            if a < usize::MAX {
                assert(acc0 - a * interval < interval);
                assert(acc0 / interval == a) by (nonlinear_arith)
                    requires
                        acc0 - a * interval < interval,
                        acc0 - a * interval >= 0,
                        interval > 0,
                ;
            } else {
                assert(acc0 / interval >= a) by (nonlinear_arith)
                    requires
                        acc0 - a * interval >= 0,
                        interval > 0,
                ;
            }
        }
        attempts
    }

    /// Picks a spawner with the generator's next value.
    fn select_spawner(&mut self, spawners: &[CellCoord]) -> (c: CellCoord)
        requires
            spawners@.len() > 0,
        ensures
            final(self).rng_state == lcg_next(old(self).rng_state),
            c == spawners@[(final(self).rng_state % (spawners@.len() as u64)) as int],
            final(self).spawn_interval == old(self).spawn_interval,
            final(self).accumulator == old(self).accumulator,
            final(self).color_index == old(self).color_index,
    {
        let value = self.advance_rng();
        let index = (value % spawners.len() as u64) as usize;
        spawners[index]
    }

    /// Advances the generator one step and returns its new state.
    pub fn advance_rng(&mut self) -> (v: u64)
        ensures
            v == lcg_next(old(self).rng_state),
            final(self).rng_state == v,
            final(self).spawn_interval == old(self).spawn_interval,
            final(self).accumulator == old(self).accumulator,
            final(self).color_index == old(self).color_index,
    {
        let s = self.rng_state;
        let next = s.wrapping_mul(RNG_MULTIPLIER).wrapping_add(RNG_INCREMENT);
        proof {
            let m = (s as nat * RNG_MULTIPLIER as nat) % 0x1_0000_0000_0000_0000nat;
            assert(next == (m + 1) % 0x1_0000_0000_0000_0000nat);
            vstd::arithmetic::div_mod::lemma_add_mod_noop(
                (s * RNG_MULTIPLIER) as int,
                1,
                0x1_0000_0000_0000_0000int,
            );
        }
        self.rng_state = next;
        next
    }

    /// The colour at the current position of the cycle; the position advances.
    fn next_color(&mut self) -> (c: BugColor)
        ensures
            c == spawn_color((old(self).color_index % 4) as int),
            final(self).color_index == (old(self).color_index % 4 + 1) % 4,
            final(self).spawn_interval == old(self).spawn_interval,
            final(self).accumulator == old(self).accumulator,
            final(self).rng_state == old(self).rng_state,
    {
        let position = self.color_index % 4;
        let color = if position == 0 {
            BugColor::from_rgb(0x2f, 0x95, 0x32)
        } else if position == 1 {
            BugColor::from_rgb(0xc8, 0x2a, 0x36)
        } else if position == 2 {
            BugColor::from_rgb(0xff, 0xc1, 0x07)
        } else {
            BugColor::from_rgb(0x58, 0x47, 0xff)
        };
        self.color_index = (position + 1) % 4;
        color
    }
}

} // verus!
