//! Towers firing projectiles, projectiles landing, and the simulation tick.

use vstd::prelude::*;
use crate::core_types::geometry::{CellCoord, CellPointHalf, CellRect, is_ceil_sqrt, squared_half_distance};
use crate::core_types::messages::Event;
use crate::core_types::time::Duration;
use crate::core_types::values::{
    BugId, Gold, Health, PlayMode, ProjectileId, ProjectileRejection, TowerId, sat_add_u32, sat_sub,
    spec_fire_cooldown_ms, spec_projectile_damage, spec_projectile_travel_time_ms, spec_range_in_cells,
};
use super::bugs::{Bug, bug_ids_increasing, find_bug, has_bug, index_of_bug, lemma_bug_at};
use super::state::{ProjectileState, World};
use super::towers::{TowerState, entry_of, has_id, index_of_id, lemma_entry_at};

verus! {

/// Centre of a tower footprint in half-cell units.
pub open spec fn spec_tower_center(region: CellRect) -> CellPointHalf {
    CellPointHalf {
        column_half: (region.origin.column * 2 + region.size.width) as i64,
        row_half: (region.origin.row * 2 + region.size.height) as i64,
    }
}

/// Centre of a cell in half-cell units.
pub open spec fn spec_bug_center(cell: CellCoord) -> CellPointHalf {
    CellPointHalf { column_half: (cell.column * 2 + 1) as i64, row_half: (cell.row * 2 + 1) as i64 }
}

/// Centre of a tower footprint in half-cell units.
pub fn tower_center_half(region: CellRect) -> (p: CellPointHalf)
    ensures
        p == spec_tower_center(region),
{
    let column: i64 = region.origin.column as i64 * 2 + region.size.width as i64;
    let row: i64 = region.origin.row as i64 * 2 + region.size.height as i64;
    CellPointHalf::new(column, row)
}

/// Centre of a cell in half-cell units.
pub fn bug_center_half(cell: CellCoord) -> (p: CellPointHalf)
    ensures
        p == spec_bug_center(cell),
{
    CellPointHalf::new(cell.column as i64 * 2 + 1, cell.row as i64 * 2 + 1)
}

/// Flight time of a projectile covering `distance_half` when the full range
/// `max_range_half` takes `base_time_ms`: proportional to the distance,
/// rounded up (the product saturating at `u128::MAX`), and at least one
/// millisecond; zero when any input is zero.
pub open spec fn spec_travel_time(distance_half: int, max_range_half: int, base_time_ms: int) -> int {
    if distance_half == 0 || max_range_half == 0 || base_time_ms == 0 {
        0
    } else {
        let scaled = if base_time_ms * distance_half > u128::MAX {
            u128::MAX as int
        } else {
            base_time_ms * distance_half
        };
        let time = scaled / max_range_half + if scaled % max_range_half != 0 { 1int } else { 0int };
        if time < 1 { 1 } else { time }
    }
}

/// Computes a projectile's flight time (see [`spec_travel_time`]).
pub fn compute_projectile_travel_time(distance_half: u128, max_range_half: u128, base_time_ms: u128) -> (t: u128)
    ensures
        t == spec_travel_time(distance_half as int, max_range_half as int, base_time_ms as int),
{
    if distance_half == 0 || max_range_half == 0 || base_time_ms == 0 {
        return 0;
    }
    let scaled: u128 = if base_time_ms > u128::MAX / distance_half {
        proof {
            assert(base_time_ms * distance_half > u128::MAX) by (nonlinear_arith)
                requires
                    base_time_ms > u128::MAX / distance_half,
                    distance_half > 0,
            ;
        }
        u128::MAX
    } else {
        proof {
            assert(base_time_ms * distance_half <= u128::MAX) by (nonlinear_arith)
                requires
                    base_time_ms <= u128::MAX / distance_half,
                    distance_half > 0,
            ;
        }
        base_time_ms * distance_half
    };
    let quotient = scaled / max_range_half;
    let remainder = scaled % max_range_half;
    let time: u128 = if remainder != 0 {
        proof {
            assert(quotient < u128::MAX) by (nonlinear_arith)
                requires
                    quotient == scaled / max_range_half,
                    max_range_half >= 2,
            ;
        }
        quotient + 1
    } else {
        quotient
    };
    if time < 1 { 1 } else { time }
}

/// The projectile `p` after `dt_ms` more milliseconds of flight: one without
/// flight time arrives at once; otherwise its elapsed time grows (capped at
/// the flight time) and it covers the matching share of its distance.
pub open spec fn advanced(p: ProjectileState, dt_ms: u32) -> ProjectileState {
    if p.travel_time_ms == 0 {
        ProjectileState { travelled_half: p.distance_half, ..p }
    } else {
        let sum = p.elapsed_ms + dt_ms;
        let saturated = if sum > u128::MAX { u128::MAX as int } else { sum };
        let elapsed = if saturated < p.travel_time_ms { saturated } else { p.travel_time_ms as int };
        let product = if p.distance_half * elapsed > u128::MAX {
            u128::MAX as int
        } else {
            p.distance_half * elapsed
        };
        ProjectileState { elapsed_ms: elapsed as u128, travelled_half: (product / p.travel_time_ms as int) as u128, ..p }
    }
}

/// Whether an advanced projectile has reached its target.
pub open spec fn landed(p: ProjectileState) -> bool {
    p.travel_time_ms == 0 || p.elapsed_ms >= p.travel_time_ms
}

/// The projectiles of `ps` still in flight after `dt_ms` milliseconds, advanced, in order.
pub open spec fn in_flight(ps: Seq<ProjectileState>, dt_ms: u32) -> Seq<ProjectileState>
    decreases ps.len(),
{
    if ps.len() == 0 {
        Seq::empty()
    } else {
        let rest = in_flight(ps.drop_last(), dt_ms);
        let p = advanced(ps.last(), dt_ms);
        if landed(p) {
            rest
        } else {
            rest.push(p)
        }
    }
}

/// The projectiles of `ps` that reach their target within `dt_ms` milliseconds, advanced, in order.
pub open spec fn arrivals(ps: Seq<ProjectileState>, dt_ms: u32) -> Seq<ProjectileState>
    decreases ps.len(),
{
    if ps.len() == 0 {
        Seq::empty()
    } else {
        let rest = arrivals(ps.drop_last(), dt_ms);
        let p = advanced(ps.last(), dt_ms);
        if landed(p) {
            rest.push(p)
        } else {
            rest
        }
    }
}

/// Bugs, gold and announced events while projectiles land.
pub type Skirmish = (Seq<Bug>, u32, Seq<Event>);

/// The skirmish after projectile `p` lands, with bounties multiplied by
/// `multiplier`. A projectile whose target is gone or already dead expires.
/// Otherwise the target takes the damage (saturating at zero), announced
/// with `BugDamaged`; a target brought to zero health dies: it leaves the
/// maze, the bounty is paid (announced when the balance changes) and
/// `BugDied` is announced. Every hit ends with `ProjectileHit`.
pub open spec fn land(st: Skirmish, p: ProjectileState, multiplier: u32) -> Skirmish {
    let (bugs, gold, events) = st;
    if !has_bug(bugs, p.target.0) || bugs[index_of_bug(bugs, p.target.0)].health.0 == 0 {
        (bugs, gold, events.push(Event::ProjectileExpired { projectile: p.id }))
    } else {
        let i = index_of_bug(bugs, p.target.0);
        let b = bugs[i];
        let remaining = sat_sub(b.health.0 as int, p.damage.0 as int) as u32;
        let damaged = events.push(Event::BugDamaged { bug: p.target, remaining: Health(remaining) });
        let hit = Event::ProjectileHit { projectile: p.id, target: p.target, damage: p.damage };
        if remaining == 0 {
            let paid = sat_add_u32(gold as int, multiplier as int) as u32;
            let announced = if paid != gold {
                damaged.push(Event::GoldChanged { amount: Gold(paid) })
            } else {
                damaged
            };
            (bugs.remove(i), paid, announced.push(Event::BugDied { bug: p.target }).push(hit))
        } else {
            (bugs.update(i, Bug { health: Health(remaining), ..b }), gold, damaged.push(hit))
        }
    }
}

/// A projectile that brings a living target's health to zero pays the
/// bounty: when the balance does not overflow, gold grows by exactly the
/// multiplier and the events announce the damage, the new balance, the death
/// and the hit, in that order; when it would overflow, gold stops at
/// `u32::MAX`. The target leaves the maze either way.
pub proof fn lemma_lethal_hit_pays_bounty(st: Skirmish, p: ProjectileState, multiplier: u32)
    requires
        has_bug(st.0, p.target.0),
        st.0[index_of_bug(st.0, p.target.0)].health.0 > 0,
        st.0[index_of_bug(st.0, p.target.0)].health.0 <= p.damage.0,
    ensures
        st.1 + multiplier <= u32::MAX ==> land(st, p, multiplier).1 == st.1 + multiplier,
        st.1 + multiplier > u32::MAX ==> land(st, p, multiplier).1 == u32::MAX,
        land(st, p, multiplier).1 >= st.1,
        multiplier > 0 && st.1 + multiplier <= u32::MAX ==> land(st, p, multiplier).2 == st.2 + seq![
            Event::BugDamaged { bug: p.target, remaining: Health(0) },
            Event::GoldChanged { amount: Gold((st.1 + multiplier) as u32) },
            Event::BugDied { bug: p.target },
            Event::ProjectileHit { projectile: p.id, target: p.target, damage: p.damage },
        ],
        land(st, p, multiplier).0.len() + 1 == st.0.len(),
{
    let r = land(st, p, multiplier);
    if multiplier > 0 && st.1 + multiplier <= u32::MAX {
        assert(r.2 =~= st.2 + seq![
            Event::BugDamaged { bug: p.target, remaining: Health(0) },
            Event::GoldChanged { amount: Gold((st.1 + multiplier) as u32) },
            Event::BugDied { bug: p.target },
            Event::ProjectileHit { projectile: p.id, target: p.target, damage: p.damage },
        ]);
    }
}

/// The skirmish after the projectiles `ps` land in order.
pub open spec fn land_all(st: Skirmish, ps: Seq<ProjectileState>, multiplier: u32) -> Skirmish
    decreases ps.len(),
{
    if ps.len() == 0 {
        st
    } else {
        land(land_all(st, ps.drop_last(), multiplier), ps.last(), multiplier)
    }
}

/// Landing projectiles never lowers the gold balance, and only appends
/// events: those announced before are kept as a prefix.
pub proof fn lemma_landing_keeps_gold_and_events(st: Skirmish, ps: Seq<ProjectileState>, multiplier: u32)
    ensures
        land_all(st, ps, multiplier).1 >= st.1,
        land_all(st, ps, multiplier).2.len() >= st.2.len(),
        land_all(st, ps, multiplier).2.subrange(0, st.2.len() as int) == st.2,
    decreases ps.len(),
{
    if ps.len() > 0 {
        lemma_landing_keeps_gold_and_events(st, ps.drop_last(), multiplier);
        let mid = land_all(st, ps.drop_last(), multiplier);
        let r = land(mid, ps.last(), multiplier);
        assert(r.2.subrange(0, mid.2.len() as int) =~= mid.2);
        assert(r.2.subrange(0, st.2.len() as int) =~= mid.2.subrange(0, st.2.len() as int));
    }
}

/// `b` after `dt_ms` more milliseconds of waiting, capped at one step.
pub open spec fn rested(b: Bug, dt_ms: u32) -> Bug {
    let sum = sat_add_u32(b.accum_ms as int, dt_ms as int);
    Bug { accum_ms: (if sum < b.step_ms { sum } else { b.step_ms as int }) as u32, ..b }
}

/// Whole milliseconds of `dt`, saturating at `u32::MAX`.
pub open spec fn tick_millis(dt: Duration) -> u32 {
    let ms = dt.spec_nanos() / 1_000_000;
    (if ms > u32::MAX { u32::MAX as int } else { ms }) as u32
}

/// `p` is the projectile that the tower `tower` of `w` fires at bug `target`.
pub open spec fn fired_projectile(w: World, tower: TowerId, target: BugId, p: ProjectileState) -> bool {
    let t = entry_of(w.towers.entries@, tower.0);
    let b = w.bugs@[index_of_bug(w.bugs@, target.0)];
    &&& p.id == w.next_projectile_id
    &&& p.tower == tower
    &&& p.target == target
    &&& p.start == spec_tower_center(t.region)
    &&& p.end == spec_bug_center(b.cell)
    &&& is_ceil_sqrt(squared_half_distance(p.start, p.end), p.distance_half as int)
    &&& p.travelled_half == 0
    &&& p.elapsed_ms == 0
    &&& p.travel_time_ms == spec_travel_time(
        p.distance_half as int,
        spec_range_in_cells(t.kind, w.cells_per_tile as int) * 2,
        spec_projectile_travel_time_ms(t.kind) as int,
    )
    &&& p.damage.0 == spec_projectile_damage(t.kind)
}

/// `w1` and `e1` are the world and event list after `w0` and `e0` handled a
/// request for tower `tower` to fire at bug `target`.
pub open spec fn fire_result(w0: World, w1: World, tower: TowerId, target: BugId, e0: Seq<Event>, e1: Seq<Event>) -> bool {
    &&& w0.fire_rejection(tower, target) matches Some(reason) ==> {
        &&& w1 == w0
        &&& e1 =~= e0.push(
            Event::ProjectileRejected { tower, target, reason },
        )
    }
    &&& w0.fire_rejection(tower, target) is None ==> {
        let p = w1.projectiles@.last();
        let kind = entry_of(w0.towers.entries@, tower.0).kind;
        &&& w1.projectiles@ == w0.projectiles@.push(p)
        &&& fired_projectile(w0, tower, target, p)
        &&& w1.next_projectile_id.0 == w0.next_projectile_id.0 + 1
        &&& w1.towers.next_tower_id == w0.towers.next_tower_id
        &&& w1.towers.entries@.len() == w0.towers.entries@.len()
        &&& forall|i: int| 0 <= i < w1.towers.entries@.len() ==> {
            let o = w0.towers.entries@[i];
            let n = #[trigger] w1.towers.entries@[i];
            if o.id == tower {
                &&& n == TowerState { cooldown_remaining: n.cooldown_remaining, ..o }
                &&& n.cooldown_remaining.spec_nanos() == spec_fire_cooldown_ms(kind) * 1_000_000
            } else {
                n == o
            }
        }
        &&& e1 =~= e0.push(
            Event::ProjectileFired { projectile: p.id, tower, target },
        )
        &&& w1 == (World {
            projectiles: w1.projectiles,
            next_projectile_id: w1.next_projectile_id,
            towers: w1.towers,
            ..w0
        })
    }
}

impl World {
    /// Why the tower `tower` may not fire at bug `target`, if it may not:
    /// the world is not attacking, the tower is unknown, it is cooling down,
    /// or the target is unknown or already dead.
    pub open spec fn fire_rejection(&self, tower: TowerId, target: BugId) -> Option<ProjectileRejection> {
        if self.play_mode != PlayMode::Attack {
            Some(ProjectileRejection::InvalidMode)
        } else if !has_id(self.towers.entries@, tower.0) {
            Some(ProjectileRejection::MissingTower)
        } else if entry_of(self.towers.entries@, tower.0).cooldown_remaining.spec_nanos() != 0 {
            Some(ProjectileRejection::CooldownActive)
        } else if !has_bug(self.bugs@, target.0) || self.bugs@[index_of_bug(self.bugs@, target.0)].health.0 == 0 {
            Some(ProjectileRejection::MissingTarget)
        } else {
            None
        }
    }

    /// Lets the tower `tower` fire at bug `target`.
    ///
    /// A refused request (see [`World::fire_rejection`]) changes nothing and
    /// is announced with `ProjectileRejected`. Otherwise a projectile takes
    /// the next identifier and flies from the tower's centre to the bug's
    /// centre in a time proportional to the distance over the tower's range,
    /// the tower's cooldown restarts, and `ProjectileFired` is announced.
    pub fn handle_fire_projectile(&mut self, tower: TowerId, target: BugId, out_events: &mut Vec<Event>)
        requires
            old(self).well_formed(),
            old(self).next_projectile_id.0 < u32::MAX,
        ensures
            final(self).well_formed(),
            fire_result(*old(self), *final(self), tower, target, old(out_events)@, final(out_events)@),
    {
        if self.play_mode != PlayMode::Attack {
            out_events.push(Event::ProjectileRejected { tower, target, reason: ProjectileRejection::InvalidMode });
            return;
        }
        let state = match self.towers.get(tower) {
            Some(s) => s,
            None => {
                out_events.push(
                    Event::ProjectileRejected { tower, target, reason: ProjectileRejection::MissingTower },
                );
                return;
            },
        };
        if !state.cooldown_remaining.is_zero() {
            out_events.push(
                Event::ProjectileRejected { tower, target, reason: ProjectileRejection::CooldownActive },
            );
            return;
        }
        let bug_index = match find_bug(&self.bugs, target) {
            Some(i) => i,
            None => {
                out_events.push(
                    Event::ProjectileRejected { tower, target, reason: ProjectileRejection::MissingTarget },
                );
                return;
            },
        };
        let bug_cell = self.bugs[bug_index].cell;
        if self.bugs[bug_index].health.is_zero() {
            out_events.push(
                Event::ProjectileRejected { tower, target, reason: ProjectileRejection::MissingTarget },
            );
            return;
        }
        let ghost w0 = *self;
        let projectile_id = self.next_projectile_id;
        self.next_projectile_id = ProjectileId::new(projectile_id.0 + 1);
        let start = tower_center_half(state.region);
        let end = bug_center_half(bug_cell);
        let distance_half = start.distance_to(end);
        let range_cells = state.kind.range_in_cells(self.cells_per_tile);
        let max_range_half: u128 = range_cells as u128 * 2;
        let base_time_ms: u128 = state.kind.projectile_travel_time_ms() as u128;
        let travel_time_ms = compute_projectile_travel_time(distance_half, max_range_half, base_time_ms);
        let projectile = ProjectileState {
            id: projectile_id,
            tower,
            target,
            start,
            end,
            distance_half,
            travelled_half: 0,
            travel_time_ms,
            elapsed_ms: 0,
            damage: state.kind.projectile_damage(),
        };
        self.projectiles.push(projectile);
        let cooldown = Duration::from_millis(state.kind.fire_cooldown_ms() as u64);
        self.towers.set_cooldown(tower, cooldown);
        out_events.push(Event::ProjectileFired { projectile: projectile_id, tower, target });
        proof {
            let e = self.towers.entries@;
            let e0 = w0.towers.entries@;
            assert(self.projectiles@.last() == projectile);
            assert forall|i: int| 0 <= i < e.len() implies (#[trigger] e[i]).region == e0[i].region && e[i].id
                == e0[i].id by {}
            assert forall|i: int| 0 <= i < e.len() && e0[i].id == tower implies e0[i].kind == state.kind by {
                lemma_entry_at(e0, i);
            }
            assert forall|c: CellCoord| #[trigger] self.tower_occupancy.has(c) <==> exists|i: int|
                0 <= i < e.len() && crate::core_types::geometry::rect_contains(#[trigger] e[i].region, c) by {
                if w0.tower_occupancy.has(c) {
                    let i = choose|i: int| 0 <= i < e0.len() && crate::core_types::geometry::rect_contains(
                        #[trigger] e0[i].region,
                        c,
                    );
                    assert(e[i].region == e0[i].region);
                }
                if exists|i: int| 0 <= i < e.len() && crate::core_types::geometry::rect_contains(
                    #[trigger] e[i].region,
                    c,
                ) {
                    let i = choose|i: int| 0 <= i < e.len() && crate::core_types::geometry::rect_contains(
                        #[trigger] e[i].region,
                        c,
                    );
                    assert(e[i].region == e0[i].region);
                }
            }
            let ps = self.projectiles@;
            assert forall|i: int| 0 <= i < ps.len() implies (#[trigger] ps[i]).id.0 < self.next_projectile_id.0 by {
                if i < ps.len() - 1 {
                    assert(ps[i] == w0.projectiles@[i]);
                }
            }
            assert forall|i: int, j: int| 0 <= i < j < ps.len() implies ps[i].id.0 < ps[j].id.0 by {
                if j < ps.len() - 1 {
                    assert(ps[i] == w0.projectiles@[i]);
                    assert(ps[j] == w0.projectiles@[j]);
                } else {
                    assert(ps[i] == w0.projectiles@[i]);
                }
            }
        }
    }
}

/// Advances a projectile by `dt_ms` milliseconds of flight (see [`advanced`]).
fn advance_projectile(p: ProjectileState, dt_ms: u32) -> (r: ProjectileState)
    ensures
        r == advanced(p, dt_ms),
{
    if p.travel_time_ms == 0 {
        return ProjectileState { travelled_half: p.distance_half, ..p };
    }
    let step: u128 = dt_ms as u128;
    let saturated: u128 = if p.elapsed_ms > u128::MAX - step { u128::MAX } else { p.elapsed_ms + step };
    let elapsed: u128 = if saturated < p.travel_time_ms { saturated } else { p.travel_time_ms };
    let product: u128 = if elapsed != 0 && p.distance_half > u128::MAX / elapsed {
        proof {
            assert(p.distance_half * elapsed > u128::MAX) by (nonlinear_arith)
                requires
                    p.distance_half > u128::MAX / elapsed,
                    elapsed > 0,
            ;
        }
        u128::MAX
    } else {
        proof {
            if elapsed != 0 {
                assert(p.distance_half * elapsed <= u128::MAX) by (nonlinear_arith)
                    requires
                        p.distance_half <= u128::MAX / elapsed,
                        elapsed > 0,
                ;
            }
        }
        p.distance_half * elapsed
    };
    ProjectileState { elapsed_ms: elapsed, travelled_half: product / p.travel_time_ms, ..p }
}

impl World {
    /// Lands the projectile `p` (see [`land`]), paying bounties multiplied by
    /// the difficulty level plus one.
    fn resolve_projectile_completion(&mut self, p: &ProjectileState, out_events: &mut Vec<Event>)
        requires
            old(self).state_consistent(),
            old(self).navigation_current(),
        ensures
            final(self).state_consistent(),
            final(self).navigation_current(),
            ({
                let st = land(
                    (old(self).bugs@, old(self).gold.0, old(out_events)@),
                    *p,
                    sat_add_u32(old(self).difficulty_level as int, 1) as u32,
                );
                &&& final(self).bugs@ == st.0
                &&& final(self).gold.0 == st.1
                &&& final(out_events)@ == st.2
            }),
            ({
                let bugs = old(self).bugs@;
                let bounty: int = if old(self).difficulty_level == u32::MAX {
                    u32::MAX as int
                } else {
                    old(self).difficulty_level + 1
                };
                has_bug(bugs, p.target.0) && 0 < bugs[index_of_bug(bugs, p.target.0)].health.0 <= p.damage.0
                    && old(self).gold.0 + bounty <= u32::MAX ==> final(self).gold.0 == old(self).gold.0 + bounty
                    && !has_bug(final(self).bugs@, p.target.0) && final(out_events)@ == old(out_events)@ + seq![
                    Event::BugDamaged { bug: p.target, remaining: Health(0) },
                    Event::GoldChanged { amount: Gold((old(self).gold.0 + bounty) as u32) },
                    Event::BugDied { bug: p.target },
                    Event::ProjectileHit { projectile: p.id, target: p.target, damage: p.damage },
                ]
            }),
            *final(self) == (World {
                bugs: final(self).bugs,
                gold: final(self).gold,
                occupancy: final(self).occupancy,
                ..*old(self)
            }),
    {
        let multiplier: u32 = if self.difficulty_level == u32::MAX { u32::MAX } else { self.difficulty_level + 1 };
        let index = match find_bug(&self.bugs, p.target) {
            Some(i) => i,
            None => {
                out_events.push(Event::ProjectileExpired { projectile: p.id });
                return;
            },
        };
        if self.bugs[index].health.is_zero() {
            out_events.push(Event::ProjectileExpired { projectile: p.id });
            return;
        }
        let ghost w0 = *self;
        let bug = self.bugs[index];
        let remaining = bug.health.saturating_sub(p.damage);
        out_events.push(Event::BugDamaged { bug: p.target, remaining });
        if remaining.is_zero() {
            proof {
                assert(w0.occupancy.occupant(bug.cell) == Some(bug.id));
            }
            self.occupancy.vacate(bug.cell);
            self.bugs.remove(index);
            let reward = Gold::new(multiplier);
            let updated = self.gold.saturating_add(reward);
            if updated.0 != self.gold.0 {
                self.gold = updated;
                out_events.push(Event::GoldChanged { amount: updated });
            }
            out_events.push(Event::BugDied { bug: p.target });
            proof {
                let s = self.bugs@;
                let s0 = w0.bugs@;
                assert forall|i: int| 0 <= i < s.len() implies #[trigger] s[i] == s0[if i < index { i } else { i + 1 }] by {}
                assert forall|a: int, c: int| 0 <= a < c < s.len() implies s[a].id.0 < s[c].id.0 by {
                    assert(s[a] == s0[if a < index { a } else { a + 1 }]);
                    assert(s[c] == s0[if c < index { c } else { c + 1 }]);
                }
                assert forall|i: int| 0 <= i < s.len() implies {
                    let x = #[trigger] s[i];
                    &&& crate::world::grid_math::in_grid(x.cell, self.columns() as int, self.rows() as int)
                    &&& self.occupancy.occupant(x.cell) == Some(x.id)
                    &&& x.accum_ms <= x.step_ms
                    &&& x.id.0 < self.next_bug_id
                } by {
                    let oi = if i < index { i } else { i + 1 };
                    assert(s[i] == s0[oi]);
                    assert(w0.occupancy.occupant(s0[oi].cell) == Some(s0[oi].id));
                    assert(s0[oi].id.0 != bug.id.0) by {
                        if oi < index {
                            assert(s0[oi].id.0 < s0[index as int].id.0);
                        } else {
                            assert(s0[index as int].id.0 < s0[oi].id.0);
                        }
                    }
                }
                assert forall|c: CellCoord| #[trigger] self.occupancy.occupant(c) is Some implies exists|i: int|
                    0 <= i < s.len() && #[trigger] s[i].cell == c && Some(s[i].id) == self.occupancy.occupant(c) by {
                    assert(c != bug.cell);
                    let j = choose|j: int| 0 <= j < s0.len() && #[trigger] s0[j].cell == c
                        && Some(s0[j].id) == w0.occupancy.occupant(c);
                    assert(j != index);
                    let i = if j < index { j } else { j - 1 };
                    assert(s[i] == s0[j]);
                }
            }
        } else {
            self.bugs.set(index, Bug { health: remaining, ..bug });
            proof {
                let s = self.bugs@;
                let s0 = w0.bugs@;
                assert forall|a: int, c: int| 0 <= a < c < s.len() implies s[a].id.0 < s[c].id.0 by {
                    assert(s0[a].id.0 < s0[c].id.0);
                }
                assert forall|i: int| 0 <= i < s.len() implies {
                    let x = #[trigger] s[i];
                    &&& crate::world::grid_math::in_grid(x.cell, self.columns() as int, self.rows() as int)
                    &&& self.occupancy.occupant(x.cell) == Some(x.id)
                    &&& x.accum_ms <= x.step_ms
                    &&& x.id.0 < self.next_bug_id
                } by {
                    assert(w0.occupancy.occupant(s0[i].cell) == Some(s0[i].id));
                }
                assert forall|c: CellCoord| #[trigger] self.occupancy.occupant(c) is Some implies exists|i: int|
                    0 <= i < s.len() && #[trigger] s[i].cell == c && Some(s[i].id) == self.occupancy.occupant(c) by {
                    let j = choose|j: int| 0 <= j < s0.len() && #[trigger] s0[j].cell == c
                        && Some(s0[j].id) == w0.occupancy.occupant(c);
                    assert(s[j].cell == s0[j].cell);
                }
            }
        }
        out_events.push(Event::ProjectileHit { projectile: p.id, target: p.target, damage: p.damage });
        proof {
            lemma_bug_at(w0.bugs@, index as int);
        }
    }
}

/// `w1` and `e1` are the world and event list after `w0` and `e0` advanced by `dt`.
pub open spec fn tick_result(w0: World, w1: World, dt: Duration, e0: Seq<Event>, e1: Seq<Event>) -> bool {
    &&& w0.play_mode == PlayMode::Builder ==> w1 == w0 && e1 =~= e0
    &&& w0.play_mode == PlayMode::Attack ==> {
        let dt_ms = tick_millis(dt);
        let st = land_all(
            (w0.bugs@, w0.gold.0, e0.push(Event::TimeAdvanced { dt })),
            arrivals(w0.projectiles@, dt_ms),
            sat_add_u32(w0.difficulty_level as int, 1) as u32,
        );
        &&& w1.tick_index == if w0.tick_index == u64::MAX {
            u64::MAX
        } else {
            (w0.tick_index + 1) as u64
        }
        &&& w1.projectiles@ == in_flight(w0.projectiles@, dt_ms)
        &&& w1.bugs@ == st.0.map_values(|b: Bug| rested(b, dt_ms))
        &&& w1.gold.0 == st.1
        &&& e1 =~= st.2
        &&& w1.towers.next_tower_id == w0.towers.next_tower_id
        &&& w1.towers.entries@.len() == w0.towers.entries@.len()
        &&& forall|i: int| 0 <= i < w1.towers.entries@.len() ==> {
            let o = w0.towers.entries@[i];
            let n = #[trigger] w1.towers.entries@[i];
            &&& n.id == o.id
            &&& n.kind == o.kind
            &&& n.region == o.region
            &&& n.cooldown_remaining.spec_nanos() == if o.cooldown_remaining.spec_nanos() >= dt.spec_nanos() {
                o.cooldown_remaining.spec_nanos() - dt.spec_nanos()
            } else {
                0
            }
        }
        &&& w1 == (World {
            tick_index: w1.tick_index,
            projectiles: w1.projectiles,
            bugs: w1.bugs,
            gold: w1.gold,
            occupancy: w1.occupancy,
            towers: w1.towers,
            ..w0
        })
    }
}

impl World {
    /// Advances the simulation by `dt`.
    ///
    /// In builder mode nothing happens. Otherwise the tick counter advances
    /// (saturating) and `TimeAdvanced` is announced; tower cooldowns shrink
    /// by `dt`; projectiles fly for the whole milliseconds of `dt` (capped at
    /// `u32::MAX`), and those reaching their target land in identifier order
    /// (see [`land`]); finally every remaining bug accumulates the same time,
    /// capped at one step.
    pub fn handle_tick(&mut self, dt: Duration, out_events: &mut Vec<Event>)
        requires
            old(self).well_formed(),
        ensures
            final(self).well_formed(),
            tick_result(*old(self), *final(self), dt, old(out_events)@, final(out_events)@),
    {
        if self.play_mode == PlayMode::Builder {
            return;
        }
        let ghost w0 = *self;
        self.tick_index = if self.tick_index == u64::MAX { u64::MAX } else { self.tick_index + 1 };
        out_events.push(Event::TimeAdvanced { dt });
        let ghost e1 = out_events@;
        let ghost e0 = w0.towers.entries@;
        self.towers.tick_cooldowns(dt);
        proof {
            let e = self.towers.entries@;
            assert forall|c: CellCoord| #[trigger] self.tower_occupancy.has(c) <==> exists|i: int|
                0 <= i < e.len() && crate::core_types::geometry::rect_contains(#[trigger] e[i].region, c) by {
                if w0.tower_occupancy.has(c) {
                    let i = choose|i: int| 0 <= i < e0.len() && crate::core_types::geometry::rect_contains(
                        #[trigger] e0[i].region,
                        c,
                    );
                    assert(e[i].region == e0[i].region);
                }
                if exists|i: int| 0 <= i < e.len() && crate::core_types::geometry::rect_contains(
                    #[trigger] e[i].region,
                    c,
                ) {
                    let i = choose|i: int| 0 <= i < e.len() && crate::core_types::geometry::rect_contains(
                        #[trigger] e[i].region,
                        c,
                    );
                    assert(e[i].region == e0[i].region);
                }
            }
            assert forall|i: int| 0 <= i < e.len() implies {
                let t = #[trigger] e[i];
                &&& super::placement::region_within(t.region, self.columns() as int, self.rows() as int)
                &&& t.id.0 < self.towers.next_tower_id.0
            } by {
                assert(e[i].region == e0[i].region);
            }
        }
        let millis = dt.as_millis();
        let dt_ms: u32 = if millis > u32::MAX as u128 { u32::MAX } else { millis as u32 };
        assert(dt_ms == tick_millis(dt));
        let ghost ps = w0.projectiles@;
        let mut flying: Vec<ProjectileState> = Vec::new();
        let mut done: Vec<ProjectileState> = Vec::new();
        let mut i: usize = 0;
        assert(ps.take(0) =~= Seq::<ProjectileState>::empty());
        while i < self.projectiles.len()
            invariant
                self.projectiles@ == ps,
                w0.projectiles_consistent(),
                ps == w0.projectiles@,
                i <= ps.len(),
                flying@ == in_flight(ps.take(i as int), dt_ms),
                done@ == arrivals(ps.take(i as int), dt_ms),
                forall|a: int| 0 <= a < flying@.len() ==> exists|j: int| 0 <= j < i && (#[trigger] flying@[a]).id
                    == ps[j].id,
                forall|a: int, b: int| 0 <= a < b < flying@.len() ==> flying@[a].id.0 < flying@[b].id.0,
            decreases ps.len() - i,
        {
            let p = advance_projectile(self.projectiles[i], dt_ms);
            proof {
                assert(ps.take(i + 1).drop_last() =~= ps.take(i as int));
                assert(ps.take(i + 1).last() == ps[i as int]);
            }
            if p.travel_time_ms == 0 || p.elapsed_ms >= p.travel_time_ms {
                done.push(p);
            } else {
                proof {
                    assert forall|a: int| 0 <= a < flying@.len() implies flying@[a].id.0 < p.id.0 by {
                        let j = choose|j: int| 0 <= j < i && (#[trigger] flying@[a]).id == ps[j].id;
                        assert(ps[j].id.0 < ps[i as int].id.0);
                    }
                }
                flying.push(p);
                proof {
                    assert forall|a: int| 0 <= a < flying@.len() implies exists|j: int| 0 <= j < i + 1 && (
                    #[trigger] flying@[a]).id == ps[j].id by {
                        if a == flying@.len() - 1 {
                            assert(flying@[a].id == ps[i as int].id);
                        } else {
                            let j = choose|j: int| 0 <= j < i && (#[trigger] flying@[a]).id == ps[j].id;
                            assert(flying@[a].id == ps[j].id);
                        }
                    }
                }
            }
            i = i + 1;
        }
        assert(ps.take(ps.len() as int) =~= ps);
        proof {
            assert forall|a: int| 0 <= a < flying@.len() implies (#[trigger] flying@[a]).id.0
                < self.next_projectile_id.0 by {
                let j = choose|j: int| 0 <= j < ps.len() && (#[trigger] flying@[a]).id == ps[j].id;
                assert(ps[j].id.0 < w0.next_projectile_id.0);
            }
        }
        self.projectiles = flying;
        let ghost mult = sat_add_u32(w0.difficulty_level as int, 1) as u32;
        let ghost st0: Skirmish = (w0.bugs@, w0.gold.0, e1);
        let ghost wp = *self;
        let mut j: usize = 0;
        assert(done@.take(0) =~= Seq::<ProjectileState>::empty());
        while j < done.len()
            invariant
                j <= done@.len(),
                self.state_consistent(),
                self.navigation_current(),
                self.difficulty_level == w0.difficulty_level,
                mult == sat_add_u32(self.difficulty_level as int, 1) as u32,
                ({
                    let st = land_all(st0, done@.take(j as int), mult);
                    &&& self.bugs@ == st.0
                    &&& self.gold.0 == st.1
                    &&& out_events@ == st.2
                }),
                *self == (World { bugs: self.bugs, gold: self.gold, occupancy: self.occupancy, ..wp }),
            decreases done@.len() - j,
        {
            proof {
                assert(done@.take(j + 1).drop_last() =~= done@.take(j as int));
                assert(done@.take(j + 1).last() == done@[j as int]);
            }
            self.resolve_projectile_completion(&done[j], out_events);
            j = j + 1;
        }
        assert(done@.take(done@.len() as int) =~= done@);
        let ghost landed_bugs = self.bugs@;
        let ghost wl = *self;
        let mut k: usize = 0;
        while k < self.bugs.len()
            invariant
                k <= self.bugs@.len(),
                self.bugs@.len() == landed_bugs.len(),
                forall|t: int| 0 <= t < k ==> self.bugs@[t] == rested(#[trigger] landed_bugs[t], dt_ms),
                forall|t: int| k <= t < landed_bugs.len() ==> self.bugs@[t] == landed_bugs[t],
                *self == (World { bugs: self.bugs, ..wl }),
            decreases landed_bugs.len() - k,
        {
            let b = self.bugs[k];
            let sum: u32 = if b.accum_ms > u32::MAX - dt_ms { u32::MAX } else { b.accum_ms + dt_ms };
            let accum: u32 = if sum < b.step_ms { sum } else { b.step_ms };
            self.bugs.set(k, Bug { accum_ms: accum, ..b });
            k = k + 1;
        }
        proof {
            let s = self.bugs@;
            assert(s =~= landed_bugs.map_values(|b: Bug| rested(b, dt_ms)));
            assert forall|a: int, c: int| 0 <= a < c < s.len() implies s[a].id.0 < s[c].id.0 by {
                assert(landed_bugs[a].id.0 < landed_bugs[c].id.0);
            }
            assert forall|i: int| 0 <= i < s.len() implies {
                let x = #[trigger] s[i];
                &&& crate::world::grid_math::in_grid(x.cell, self.columns() as int, self.rows() as int)
                &&& self.occupancy.occupant(x.cell) == Some(x.id)
                &&& x.accum_ms <= x.step_ms
                &&& x.id.0 < self.next_bug_id
            } by {
                assert(s[i] == rested(landed_bugs[i], dt_ms));
                let y = landed_bugs[i];
                assert(wl.occupancy.occupant(y.cell) == Some(y.id));
            }
            assert forall|c: CellCoord| #[trigger] self.occupancy.occupant(c) is Some implies exists|i: int|
                0 <= i < s.len() && #[trigger] s[i].cell == c && Some(s[i].id) == self.occupancy.occupant(c) by {
                let j = choose|j: int| 0 <= j < landed_bugs.len() && #[trigger] landed_bugs[j].cell == c
                    && Some(landed_bugs[j].id) == wl.occupancy.occupant(c);
                assert(s[j] == rested(landed_bugs[j], dt_ms));
            }
        }
    }
}

} // verus!
