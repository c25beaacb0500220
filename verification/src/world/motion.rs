//! Play modes, bug spawning, bug steps and bugs leaving through the exit.

use vstd::prelude::*;
use crate::core_types::geometry::CellCoord;
use crate::core_types::fields::ReservationClaim;
use crate::core_types::messages::Event;
use crate::core_types::ordering::lemma_stable_order_single;
use crate::core_types::values::{BugColor, BugId, Direction, Health, PlayMode};
use super::bugs::{Bug, fresh_bug, bug_ids_increasing, find_bug, has_bug, index_of_bug, lemma_bug_at};
use super::geometry::{advance_cell, spec_advance};
use super::grid_math::in_grid;
use super::state::World;

verus! {

/// `w1` is `w0` switched to builder mode with every bug, occupied cell and
/// movement claim cleared and the bug identifier counter reset.
pub open spec fn builder_reset(w0: World, w1: World) -> bool {
    &&& w1.bugs@.len() == 0
    &&& w1.next_bug_id == 0
    &&& w1.reservations.claims@.len() == 0
    &&& w1.reservations.tick_index == 0
    &&& forall|c: CellCoord| #[trigger] w1.occupancy.occupant(c) is None
    &&& w1.occupancy.columns == w0.occupancy.columns
    &&& w1.occupancy.rows == w0.occupancy.rows
    &&& w1 == (World {
        bugs: w1.bugs,
        occupancy: w1.occupancy,
        reservations: w1.reservations,
        next_bug_id: 0,
        play_mode: PlayMode::Builder,
        ..w0
    })
}

/// The bugs of `bugs` standing on one of the `exits`, in their order.
pub open spec fn exiting(bugs: Seq<Bug>, exits: Seq<CellCoord>) -> Seq<Bug>
    decreases bugs.len(),
{
    if bugs.len() == 0 {
        Seq::empty()
    } else {
        let rest = exiting(bugs.drop_last(), exits);
        if exits.contains(bugs.last().cell) {
            rest.push(bugs.last())
        } else {
            rest
        }
    }
}

/// The `BugExited` event announcing that `b` left the maze.
pub open spec fn exit_event(b: Bug) -> Event {
    Event::BugExited { bug_id: b.id, cell: b.cell }
}

/// The bug `b` after stepping onto `to`, having spent one step of time.
pub open spec fn stepped(b: Bug, to: CellCoord) -> Bug {
    Bug { cell: to, accum_ms: (b.accum_ms - b.step_ms) as u32, ..b }
}

/// `w1` and `e1` are the world and event list after `w0` and `e0` switched to
/// `mode`: nothing happens when the mode is unchanged; otherwise the change
/// is announced, and entering builder mode clears the bugs.
pub open spec fn mode_result(w0: World, w1: World, mode: PlayMode, e0: Seq<Event>, e1: Seq<Event>) -> bool {
    &&& w0.play_mode == mode ==> w1 == w0 && e1 =~= e0
    &&& w0.play_mode != mode ==> e1 =~= e0.push(Event::PlayModeChanged { mode })
    &&& w0.play_mode != mode && mode == PlayMode::Attack ==> w1 == (World { play_mode: PlayMode::Attack, ..w0 })
    &&& w0.play_mode != mode && mode == PlayMode::Builder ==> builder_reset(w0, w1)
}

/// `w1` and `e1` are the world and event list after `w0` and `e0` processed
/// the movement claim `claim`: either the step is impossible and nothing
/// changes, or the bug moves onto its destination, spending one step of
/// time, the occupancy grid follows it and `BugAdvanced` is announced.
pub open spec fn step_result(w0: World, w1: World, claim: ReservationClaim, e0: Seq<Event>, e1: Seq<Event>) -> bool {
    match w0.step_destination(claim.bug_id, claim.direction) {
        None => w1 == w0 && e1 =~= e0,
        Some(to) => {
            let i = index_of_bug(w0.bugs@, claim.bug_id.0);
            let b = w0.bugs@[i];
            &&& w1.bugs@ == w0.bugs@.update(i, stepped(b, to))
            &&& forall|c: CellCoord| #[trigger] w1.occupancy.occupant(c) == if c == to {
                Some(b.id)
            } else if c == b.cell {
                None
            } else {
                w0.occupancy.occupant(c)
            }
            &&& e1 =~= e0.push(Event::BugAdvanced { bug_id: b.id, from: b.cell, to })
            &&& w1 == (World { bugs: w1.bugs, occupancy: w1.occupancy, ..w0 })
        },
    }
}

/// `w1` and `e1` are the world and event list after `w0` and `e0` handled a
/// request to release a bug from the spawner on `cell`.
pub open spec fn spawn_result(w0: World, w1: World, cell: CellCoord, color: BugColor, health: Health, step_ms: u32, e0: Seq<Event>, e1: Seq<Event>) -> bool {
    &&& !w0.spawn_allowed(cell) ==> w1 == w0 && e1 =~= e0
    &&& w0.spawn_allowed(cell) ==> {
        let id = BugId(w0.next_bug_id);
        &&& w1.bugs@ == w0.bugs@.push(fresh_bug(id, cell, color, health, step_ms))
        &&& w1.next_bug_id == w0.next_bug_id + 1
        &&& forall|c: CellCoord| #[trigger] w1.occupancy.occupant(c) == if c == cell {
            Some(id)
        } else {
            w0.occupancy.occupant(c)
        }
        &&& e1 =~= e0.push(
            Event::BugSpawned { bug_id: id, cell, color, health },
        )
        &&& w1 == (World {
            bugs: w1.bugs,
            next_bug_id: w1.next_bug_id,
            occupancy: w1.occupancy,
            ..w0
        })
    }
}

/// `w1` and `e1` are the world and event list after `w0` and `e0` handled a
/// request for bug `bug_id` to step in `direction`.
pub open spec fn step_bug_result(w0: World, w1: World, bug_id: BugId, direction: Direction, e0: Seq<Event>, e1: Seq<Event>) -> bool {
    &&& w0.play_mode == PlayMode::Builder ==> w1 == w0 && e1 =~= e0
    &&& w0.play_mode == PlayMode::Attack ==> exists|ws: World, es: Seq<Event>| {
        &&& #[trigger] step_result(w0, ws, ReservationClaim { bug_id, direction }, e0, es)
        &&& exiting(ws.bugs@, ws.targets@).len() == 0 ==> {
            &&& w1 == (World { reservations: w1.reservations, ..ws })
            &&& w1.reservations.claims@.len() == 0
            &&& e1 =~= es
        }
        &&& exiting(ws.bugs@, ws.targets@).len() > 0 ==> {
            let ex = exiting(ws.bugs@, ws.targets@);
            &&& builder_reset(w0, w1)
            &&& e1 =~= es + ex.map_values(|b: Bug| exit_event(b)) + seq![
                Event::PlayModeChanged { mode: PlayMode::Builder },
                Event::RoundLost { bug: ex[0].id },
            ]
        }
    }
}

impl World {
    /// The cell the bug `bug_id` enters when stepping in `direction`, if the
    /// step succeeds: the bug exists, has accumulated a full step of time, and
    /// the neighbouring cell lies inside the grid, holds no bug and no wall.
    pub open spec fn step_destination(&self, bug_id: BugId, direction: Direction) -> Option<CellCoord> {
        if !has_bug(self.bugs@, bug_id.0) {
            None
        } else {
            let b = self.bugs@[index_of_bug(self.bugs@, bug_id.0)];
            if b.accum_ms < b.step_ms {
                None
            } else {
                match spec_advance(b.cell, direction, self.columns() as int, self.rows() as int) {
                    Some(next) => if self.occupancy.occupant(next) is None && !self.walls.grid.has(next) {
                        Some(next)
                    } else {
                        None
                    },
                    None => None,
                }
            }
        }
    }

    /// Whether a spawner may release a bug on `cell`: the world is attacking
    /// and `cell` is a spawner inside the grid, free of bugs and walls.
    pub open spec fn spawn_allowed(&self, cell: CellCoord) -> bool {
        &&& self.play_mode == PlayMode::Attack
        &&& self.bug_spawners.cells@.contains(cell)
        &&& in_grid(cell, self.columns() as int, self.rows() as int)
        &&& self.occupancy.occupant(cell) is None
        &&& !self.walls.grid.has(cell)
    }

    /// Switches to `mode`, reporting whether the mode changed. Entering
    /// builder mode removes every bug; any change is announced with
    /// `PlayModeChanged`.
    pub fn transition_to_play_mode(&mut self, mode: PlayMode, out_events: &mut Vec<Event>) -> (changed: bool)
        requires
            old(self).well_formed(),
        ensures
            final(self).well_formed(),
            changed == (old(self).play_mode != mode),
            mode_result(*old(self), *final(self), mode, old(out_events)@, final(out_events)@),
    {
        if self.play_mode == mode {
            return false;
        }
        self.play_mode = mode;
        match mode {
            PlayMode::Attack => {},
            PlayMode::Builder => {
                self.clear_bugs();
            },
        }
        out_events.push(Event::PlayModeChanged { mode });
        true
    }

    /// Whether `cell` is one of the exit cells.
    fn is_exit_cell(&self, cell: CellCoord) -> (b: bool)
        ensures
            b == self.targets@.contains(cell),
    {
        let mut i: usize = 0;
        while i < self.targets.len()
            invariant
                i <= self.targets@.len(),
                forall|t: int| 0 <= t < i ==> self.targets@[t] != cell,
            decreases self.targets@.len() - i,
        {
            if self.targets[i] == cell {
                return true;
            }
            i = i + 1;
        }
        false
    }

    /// Releases a bug from the spawner on `cell` when the world is attacking
    /// and the spawner cell is free of bugs and walls; otherwise nothing
    /// happens. The bug takes the next identifier, starts with full health
    /// and one full step of accumulated time, and is announced with
    /// `BugSpawned`.
    pub fn handle_spawn_bug(
        &mut self,
        cell: CellCoord,
        color: BugColor,
        health: Health,
        step_ms: u32,
        out_events: &mut Vec<Event>,
    )
        requires
            old(self).well_formed(),
            old(self).next_bug_id < u32::MAX,
        ensures
            final(self).well_formed(),
            spawn_result(*old(self), *final(self), cell, color, health, step_ms, old(out_events)@, final(out_events)@),
    {
        if self.play_mode == PlayMode::Builder {
            return;
        }
        if !self.bug_spawners.contains(cell) {
            return;
        }
        if self.occupancy.index(cell).is_none() || !self.occupancy.can_enter(cell) {
            return;
        }
        if self.walls.contains(cell) {
            return;
        }
        let ghost w0 = *self;
        let id = BugId::new(self.next_bug_id);
        self.next_bug_id = self.next_bug_id + 1;
        let bug = Bug::new(id, cell, color, health, step_ms);
        self.occupancy.occupy(id, cell);
        self.bugs.push(bug);
        out_events.push(Event::BugSpawned { bug_id: id, cell, color, health });
        proof {
            let b = self.bugs@;
            assert forall|i: int| 0 <= i < b.len() implies {
                let x = #[trigger] b[i];
                &&& in_grid(x.cell, self.columns() as int, self.rows() as int)
                &&& self.occupancy.occupant(x.cell) == Some(x.id)
                &&& x.accum_ms <= x.step_ms
                &&& x.id.0 < self.next_bug_id
            } by {
                if i < b.len() - 1 {
                    assert(b[i] == w0.bugs@[i]);
                    assert(w0.occupancy.occupant(b[i].cell) == Some(b[i].id));
                }
            }
            assert forall|c: CellCoord| #[trigger] self.occupancy.occupant(c) is Some implies exists|i: int|
                0 <= i < b.len() && #[trigger] b[i].cell == c && Some(b[i].id) == self.occupancy.occupant(c) by {
                if c == cell {
                    assert(b[b.len() - 1].cell == c);
                } else {
                    let i = choose|i: int| 0 <= i < w0.bugs@.len() && #[trigger] w0.bugs@[i].cell == c
                        && Some(w0.bugs@[i].id) == w0.occupancy.occupant(c);
                    assert(b[i] == w0.bugs@[i]);
                }
            }
        }
    }

    /// Moves the bug named by `claim` one cell when the step is possible
    /// (see [`World::step_destination`]), announcing `BugAdvanced`.
    fn apply_step_claim(&mut self, claim: ReservationClaim, out_events: &mut Vec<Event>)
        requires
            old(self).state_consistent(),
            old(self).navigation_current(),
        ensures
            final(self).state_consistent(),
            final(self).navigation_current(),
            step_result(*old(self), *final(self), claim, old(out_events)@, final(out_events)@),
    {
        let index = match find_bug(&self.bugs, claim.bug_id) {
            Some(i) => i,
            None => {
                return;
            },
        };
        let bug = self.bugs[index];
        let from = bug.cell;
        if bug.accum_ms < bug.step_ms {
            return;
        }
        let columns = self.occupancy.columns;
        let rows = self.occupancy.rows;
        let next_cell = match advance_cell(from, claim.direction, columns, rows) {
            Some(c) => c,
            None => {
                return;
            },
        };
        if !self.occupancy.can_enter(next_cell) {
            return;
        }
        if self.walls.contains(next_cell) {
            return;
        }
        let ghost w0 = *self;
        proof {
            assert(w0.occupancy.occupant(from) == Some(bug.id));
        }
        self.occupancy.vacate(from);
        self.occupancy.occupy(bug.id, next_cell);
        let moved = Bug { cell: next_cell, accum_ms: bug.accum_ms - bug.step_ms, ..bug };
        self.bugs.set(index, moved);
        out_events.push(Event::BugAdvanced { bug_id: bug.id, from, to: next_cell });
        proof {
            let s = self.bugs@;
            let s0 = w0.bugs@;
            assert(in_grid(next_cell, columns as int, rows as int));
            assert forall|a: int, c: int| 0 <= a < c < s.len() implies s[a].id.0 < s[c].id.0 by {
                assert(s0[a].id.0 < s0[c].id.0);
            }
            assert forall|i: int| 0 <= i < s.len() implies {
                let x = #[trigger] s[i];
                &&& in_grid(x.cell, self.columns() as int, self.rows() as int)
                &&& self.occupancy.occupant(x.cell) == Some(x.id)
                &&& x.accum_ms <= x.step_ms
                &&& x.id.0 < self.next_bug_id
            } by {
                if i != index {
                    assert(s[i] == s0[i]);
                    assert(w0.occupancy.occupant(s0[i].cell) == Some(s0[i].id));
                    assert(s0[i].id != bug.id) by {
                        if i < index {
                            assert(s0[i].id.0 < s0[index as int].id.0);
                        } else {
                            assert(s0[index as int].id.0 < s0[i].id.0);
                        }
                    }
                    assert(s0[i].cell != from);
                    assert(s0[i].cell != next_cell);
                }
            }
            assert forall|c: CellCoord| #[trigger] self.occupancy.occupant(c) is Some implies exists|i: int|
                0 <= i < s.len() && #[trigger] s[i].cell == c && Some(s[i].id) == self.occupancy.occupant(c) by {
                if c == next_cell {
                    assert(s[index as int].cell == c);
                } else {
                    assert(c != from);
                    let i = choose|i: int| 0 <= i < s0.len() && #[trigger] s0[i].cell == c
                        && Some(s0[i].id) == w0.occupancy.occupant(c);
                    assert(i != index);
                    assert(s[i] == s0[i]);
                }
            }
        }
    }
    /// Removes every bug standing on an exit cell. When any bug left, the
    /// round is lost: each departure is announced with `BugExited` in bug
    /// order, the world returns to builder mode (clearing the remaining
    /// bugs), and `RoundLost` names the first bug that left.
    fn process_exit_cells(&mut self, out_events: &mut Vec<Event>)
        requires
            old(self).well_formed(),
            old(self).play_mode == PlayMode::Attack,
        ensures
            final(self).well_formed(),
            exiting(old(self).bugs@, old(self).targets@).len() == 0 ==> *final(self) == *old(self)
                && final(out_events)@ == old(out_events)@,
            exiting(old(self).bugs@, old(self).targets@).len() > 0 ==> {
                let ex = exiting(old(self).bugs@, old(self).targets@);
                &&& builder_reset(*old(self), *final(self))
                &&& final(out_events)@ == old(out_events)@ + ex.map_values(|b: Bug| exit_event(b)) + seq![
                    Event::PlayModeChanged { mode: PlayMode::Builder },
                    Event::RoundLost { bug: ex[0].id },
                ]
            },
    {
        if self.targets.len() == 0 {
            proof {
                lemma_exiting_without_exits(self.bugs@, self.targets@);
            }
            return;
        }
        let mut exited: Vec<Bug> = Vec::new();
        let mut i: usize = 0;
        assert(self.bugs@.take(0) =~= Seq::<Bug>::empty());
        while i < self.bugs.len()
            invariant
                i <= self.bugs@.len(),
                exited@ == exiting(self.bugs@.take(i as int), self.targets@),
            decreases self.bugs@.len() - i,
        {
            let bug = self.bugs[i];
            proof {
                assert(self.bugs@.take(i + 1).drop_last() =~= self.bugs@.take(i as int));
                assert(self.bugs@.take(i + 1).last() == bug);
            }
            if self.is_exit_cell(bug.cell) {
                exited.push(bug);
            }
            i = i + 1;
        }
        assert(self.bugs@.take(self.bugs@.len() as int) =~= self.bugs@);
        let ghost ex = exited@;
        let ghost events0 = out_events@;
        let mut j: usize = 0;
        while j < exited.len()
            invariant
                j <= exited@.len(),
                exited@ == ex,
                out_events@ == events0 + ex.take(j as int).map_values(|b: Bug| exit_event(b)),
            decreases exited@.len() - j,
        {
            let b = exited[j];
            out_events.push(Event::BugExited { bug_id: b.id, cell: b.cell });
            proof {
                assert(ex.take(j + 1).map_values(|b: Bug| exit_event(b)) =~= ex.take(j as int).map_values(
                    |b: Bug| exit_event(b),
                ).push(exit_event(b)));
            }
            j = j + 1;
        }
        assert(ex.take(ex.len() as int) =~= ex);
        if exited.len() > 0 {
            let first = exited[0].id;
            self.transition_to_play_mode(PlayMode::Builder, out_events);
            out_events.push(Event::RoundLost { bug: first });
            assert(out_events@ =~= events0 + ex.map_values(|b: Bug| exit_event(b)) + seq![
                Event::PlayModeChanged { mode: PlayMode::Builder },
                Event::RoundLost { bug: first },
            ]);
        }
    }

    /// Asks the bug `bug_id` to step one cell in `direction`.
    ///
    /// In builder mode nothing happens. Otherwise the claim is queued for the
    /// current tick and resolved at once: the bug moves when the step is
    /// possible (see [`World::step_destination`]); then every bug standing on
    /// an exit leaves the maze and the round is lost (see
    /// [`World::process_exit_cells`]).
    pub fn handle_step_bug(&mut self, bug_id: BugId, direction: Direction, out_events: &mut Vec<Event>)
        requires
            old(self).well_formed(),
        ensures
            final(self).well_formed(),
            step_bug_result(*old(self), *final(self), bug_id, direction, old(out_events)@, final(out_events)@),
    {
        if self.play_mode == PlayMode::Builder {
            return;
        }
        let ghost w0 = *self;
        let ghost e0 = out_events@;
        let claim = ReservationClaim::new(bug_id, direction);
        self.reservations.queue(self.tick_index, claim);
        let requests = self.reservations.drain_sorted();
        proof {
            let prev = if w0.reservations.tick_index == w0.tick_index {
                w0.reservations.claims@
            } else {
                Seq::<ReservationClaim>::empty()
            };
            assert(prev.push(claim) =~= seq![claim]);
            lemma_stable_order_single(claim, requests@);
        }
        let ghost wq = *self;
        assert(wq == (World { reservations: wq.reservations, ..w0 }));
        let mut k: usize = 0;
        while k < requests.len()
            invariant
                requests@ == seq![claim],
                k <= 1,
                wq.state_consistent(),
                wq.navigation_current(),
                wq.play_mode == PlayMode::Attack,
                wq == (World { reservations: wq.reservations, ..w0 }),
                wq.reservations.claims@.len() == 0,
                k == 0 ==> *self == wq && out_events@ == e0,
                k == 1 ==> step_result(wq, *self, claim, e0, out_events@),
                self.state_consistent(),
                self.navigation_current(),
            decreases requests@.len() - k,
        {
            let c = requests[k];
            self.apply_step_claim(c, out_events);
            k = k + 1;
        }
        let ghost w1 = *self;
        let ghost e1 = out_events@;
        let ghost w1r = World { reservations: w0.reservations, ..w1 };
        proof {
            assert(step_result(w0, w1r, claim, e0, e1));
        }
        self.process_exit_cells(out_events);
        proof {
            assert(w1r.bugs@ == w1.bugs@ && w1r.targets@ == w1.targets@);
            assert(step_result(w0, w1r, ReservationClaim { bug_id, direction }, e0, e1));
        }
    }
}

/// Without exit cells no bug leaves.
proof fn lemma_exiting_without_exits(bugs: Seq<Bug>, exits: Seq<CellCoord>)
    requires
        exits.len() == 0,
    ensures
        exiting(bugs, exits).len() == 0,
    decreases bugs.len(),
{
    if bugs.len() > 0 {
        lemma_exiting_without_exits(bugs.drop_last(), exits);
    }
}

} // verus!
