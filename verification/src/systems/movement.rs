//! Deterministic movement: bugs descend the navigation field toward the exit.

use vstd::prelude::*;
use crate::core_types::fields::{NavigationFieldView, OccupancyView, ReservationLedgerView, row_major};
use crate::core_types::geometry::CellCoord;
use crate::core_types::messages::{Command, Event};
use crate::core_types::ordering::{is_stable_key_order, stable_sort_by_key};
use crate::core_types::values::{BugId, Direction, PlayMode};
use crate::core_types::views::{BugSnapshot, BugView};
use crate::world::geometry::{advance_cell, spec_advance};
use crate::world::query::select_goal;
use super::builder::{mode_after, track_play_mode};

verus! {

/// Whether the row-major mask `blocked` of a grid `columns` cells wide marks
/// `cell` as blocked (cells past the end of the mask are open).
pub open spec fn is_blocked(blocked: Seq<bool>, columns: u32, cell: CellCoord) -> bool {
    let i = row_major(cell, columns as int);
    0 <= i < blocked.len() && blocked[i]
}

/// A bug may stand on `cell`: the cell is free or already holds this bug.
pub open spec fn available(cell: CellCoord, bug_id: BugId, occupancy: OccupancyView) -> bool {
    match occupancy.spec_occupant(cell) {
        None => true,
        Some(occupant) => occupant == bug_id,
    }
}

/// `next` is a neighbour of `from` inside a `columns` by `rows` grid.
pub open spec fn is_neighbor(from: CellCoord, next: CellCoord, columns: u32, rows: u32) -> bool {
    ||| spec_advance(from, Direction::North, columns as int, rows as int) == Some(next)
    ||| spec_advance(from, Direction::West, columns as int, rows as int) == Some(next)
    ||| spec_advance(from, Direction::East, columns as int, rows as int) == Some(next)
    ||| spec_advance(from, Direction::South, columns as int, rows as int) == Some(next)
}

/// `next` is a step down the navigation field for `bug`: an open neighbour
/// the bug may stand on, strictly nearer to the exit than the bug's cell.
pub open spec fn descends(
    bug: BugSnapshot,
    navigation: NavigationFieldView,
    occupancy: OccupancyView,
    blocked: Seq<bool>,
    columns: u32,
    rows: u32,
    next: CellCoord,
) -> bool {
    &&& is_neighbor(bug.cell, next, columns, rows)
    &&& !is_blocked(blocked, columns, next)
    &&& available(next, bug.id, occupancy)
    &&& navigation.spec_distance(bug.cell) is Some
    &&& navigation.spec_distance(next) is Some
    &&& (navigation.spec_distance(next)->0 as int) < (navigation.spec_distance(bug.cell)->0 as int)
}

/// `a` ranks before `b`: smaller distance, then smaller column, then smaller row.
pub open spec fn ranks_before(navigation: NavigationFieldView, a: CellCoord, b: CellCoord) -> bool {
    let da = navigation.spec_distance(a)->0 as int;
    let db = navigation.spec_distance(b)->0 as int;
    da < db || (da == db && (a.column < b.column || (a.column == b.column && a.row < b.row)))
}

/// `next` is the step `bug` takes: it descends, ahead of every other descending neighbour.
pub open spec fn is_best_step(
    bug: BugSnapshot,
    navigation: NavigationFieldView,
    occupancy: OccupancyView,
    blocked: Seq<bool>,
    columns: u32,
    rows: u32,
    next: CellCoord,
) -> bool {
    &&& descends(bug, navigation, occupancy, blocked, columns, rows, next)
    &&& forall|other: CellCoord|
        #[trigger] descends(bug, navigation, occupancy, blocked, columns, rows, other) && other != next
            ==> ranks_before(navigation, next, other)
}

/// The cell `bug` steps to down the navigation field, if any neighbour descends.
pub open spec fn gradient_step(
    bug: BugSnapshot,
    navigation: NavigationFieldView,
    occupancy: OccupancyView,
    blocked: Seq<bool>,
    columns: u32,
    rows: u32,
) -> Option<CellCoord> {
    if exists|c: CellCoord| is_best_step(bug, navigation, occupancy, blocked, columns, rows, c) {
        Some(choose|c: CellCoord| is_best_step(bug, navigation, occupancy, blocked, columns, rows, c))
    } else {
        None
    }
}

/// The direction leading from `from` to the adjacent cell `to`.
pub open spec fn spec_direction(from: CellCoord, to: CellCoord) -> Option<Direction> {
    if to.row == from.row && to.column == from.column + 1 {
        Some(Direction::East)
    } else if to.row == from.row && to.column + 1 == from.column {
        Some(Direction::West)
    } else if to.column == from.column && to.row == from.row + 1 {
        Some(Direction::South)
    } else if to.column == from.column && to.row + 1 == from.row {
        Some(Direction::North)
    } else {
        None
    }
}

/// The step command for `bug`, if it moves: the bug is ready, stands on no
/// exit, and a neighbour descends the navigation field.
pub open spec fn step_for(
    bug: BugSnapshot,
    exits: Seq<CellCoord>,
    navigation: NavigationFieldView,
    occupancy: OccupancyView,
    blocked: Seq<bool>,
    columns: u32,
    rows: u32,
) -> Option<Command> {
    if !bug.ready_for_step || exits.contains(bug.cell) {
        None
    } else {
        match gradient_step(bug, navigation, occupancy, blocked, columns, rows) {
            Some(next) => match spec_direction(bug.cell, next) {
                Some(direction) => Some(Command::StepBug { bug_id: bug.id, direction }),
                None => None,
            },
            None => None,
        }
    }
}

/// The step commands for `bugs`, in order.
pub open spec fn step_commands(
    bugs: Seq<BugSnapshot>,
    exits: Seq<CellCoord>,
    navigation: NavigationFieldView,
    occupancy: OccupancyView,
    blocked: Seq<bool>,
    columns: u32,
    rows: u32,
) -> Seq<Command>
    decreases bugs.len(),
{
    if bugs.len() == 0 {
        Seq::empty()
    } else {
        let rest = step_commands(bugs.drop_last(), exits, navigation, occupancy, blocked, columns, rows);
        match step_for(bugs.last(), exits, navigation, occupancy, blocked, columns, rows) {
            Some(c) => rest.push(c),
            None => rest,
        }
    }
}

/// Every step the movement system proposes moves one of the given bugs onto
/// an open neighbouring cell that the bug may stand on and that lies
/// strictly nearer the exit; and it moves a bug that was ready to step and
/// stood on no exit.
pub proof fn lemma_step_commands_descend(
    bugs: Seq<BugSnapshot>,
    exits: Seq<CellCoord>,
    navigation: NavigationFieldView,
    occupancy: OccupancyView,
    blocked: Seq<bool>,
    columns: u32,
    rows: u32,
    i: int,
)
    requires
        0 <= i < step_commands(bugs, exits, navigation, occupancy, blocked, columns, rows).len(),
    ensures
        exists|k: int, direction: Direction|
            #![trigger bugs[k], spec_advance(bugs[k].cell, direction, columns as int, rows as int)]
            {
                &&& 0 <= k < bugs.len()
                &&& bugs[k].ready_for_step
                &&& !exits.contains(bugs[k].cell)
                &&& step_commands(bugs, exits, navigation, occupancy, blocked, columns, rows)[i]
                    == Command::StepBug { bug_id: bugs[k].id, direction }
                &&& spec_advance(bugs[k].cell, direction, columns as int, rows as int) is Some
                &&& descends(
                    bugs[k],
                    navigation,
                    occupancy,
                    blocked,
                    columns,
                    rows,
                    spec_advance(bugs[k].cell, direction, columns as int, rows as int)->0,
                )
            },
    decreases bugs.len(),
{
    let cmds = step_commands(bugs, exits, navigation, occupancy, blocked, columns, rows);
    let rest = step_commands(bugs.drop_last(), exits, navigation, occupancy, blocked, columns, rows);
    if i < rest.len() {
        lemma_step_commands_descend(bugs.drop_last(), exits, navigation, occupancy, blocked, columns, rows, i);
        let short = bugs.drop_last();
        let (k, direction) = choose|k: int, direction: Direction|
            #![trigger short[k], spec_advance(short[k].cell, direction, columns as int, rows as int)]
            {
                &&& 0 <= k < short.len()
                &&& short[k].ready_for_step
                &&& !exits.contains(short[k].cell)
                &&& rest[i] == Command::StepBug { bug_id: short[k].id, direction }
                &&& spec_advance(short[k].cell, direction, columns as int, rows as int) is Some
                &&& descends(
                    short[k],
                    navigation,
                    occupancy,
                    blocked,
                    columns,
                    rows,
                    spec_advance(short[k].cell, direction, columns as int, rows as int)->0,
                )
            };
        assert(short[k] == bugs[k]);
        assert(cmds[i] == rest[i]);
        assert(spec_advance(bugs[k].cell, direction, columns as int, rows as int) is Some);
    } else {
        let bug = bugs.last();
        let k = bugs.len() - 1;
        assert(bugs[k] == bug);
        let next = choose|c: CellCoord| is_best_step(bug, navigation, occupancy, blocked, columns, rows, c);
        let direction = spec_direction(bug.cell, next)->0;
        assert(is_neighbor(bug.cell, next, columns, rows));
        assert(spec_advance(bug.cell, direction, columns as int, rows as int) == Some(next));
        assert(cmds[i] == Command::StepBug { bug_id: bug.id, direction });
    }
}

/// Some event of `events` advanced the simulation clock.
pub open spec fn has_tick(events: Seq<Event>) -> bool {
    exists|i: int| 0 <= i < events.len() && events[i] is TimeAdvanced
}

/// At most one cell is the best step.
proof fn lemma_best_step_unique(
    bug: BugSnapshot,
    navigation: NavigationFieldView,
    occupancy: OccupancyView,
    blocked: Seq<bool>,
    columns: u32,
    rows: u32,
    a: CellCoord,
    b: CellCoord,
)
    requires
        is_best_step(bug, navigation, occupancy, blocked, columns, rows, a),
        is_best_step(bug, navigation, occupancy, blocked, columns, rows, b),
    ensures
        a == b,
{
    if a != b {
        assert(descends(bug, navigation, occupancy, blocked, columns, rows, b));
        assert(descends(bug, navigation, occupancy, blocked, columns, rows, a));
        assert(ranks_before(navigation, a, b));
        assert(ranks_before(navigation, b, a));
    }
}

/// Neighbour `n` is a candidate step for `bug` standing at distance `current`:
/// open, available to the bug, and strictly nearer to the exit.
pub open spec fn qualifies(
    bug: BugSnapshot,
    current: u16,
    navigation: NavigationFieldView,
    occupancy: OccupancyView,
    blocked: Seq<bool>,
    columns: u32,
    n: CellCoord,
) -> bool {
    &&& !is_blocked(blocked, columns, n)
    &&& available(n, bug.id, occupancy)
    &&& navigation.spec_distance(n) is Some
    &&& (navigation.spec_distance(n)->0 as int) < (current as int)
}

/// The better of the kept candidate `best` and the qualifying neighbour `n`.
pub open spec fn keep_better(
    navigation: NavigationFieldView,
    best: Option<(CellCoord, u16)>,
    n: CellCoord,
) -> (CellCoord, u16) {
    match best {
        None => (n, navigation.spec_distance(n)->0),
        Some(b) => if ranks_before(navigation, n, b.0) {
            (n, navigation.spec_distance(n)->0)
        } else {
            b
        },
    }
}

/// The movement planner's cached exit cells and grid dimensions.
#[derive(Debug)]
pub struct CrowdPlanner {
    pub targets: Vec<CellCoord>,
    pub prepared_dimensions: Option<(u32, u32)>,
}

/// Whether a bug may stand on `cell`: it is free or already holds the bug.
pub fn cell_available_for(cell: CellCoord, bug_id: BugId, occupancy_view: &OccupancyView) -> (b: bool)
    ensures
        b == available(cell, bug_id, *occupancy_view),
{
    match occupancy_view.occupant(cell) {
        None => true,
        Some(occupant) => occupant.0 == bug_id.0,
    }
}

/// The direction leading from `from` to `to`, when the cells are adjacent.
pub fn direction_between(from: CellCoord, to: CellCoord) -> (r: Option<Direction>)
    ensures
        r == spec_direction(from, to),
{
    if to.row == from.row && from.column < u32::MAX && to.column == from.column + 1 {
        Some(Direction::East)
    } else if to.row == from.row && to.column < u32::MAX && to.column + 1 == from.column {
        Some(Direction::West)
    } else if to.column == from.column && from.row < u32::MAX && to.row == from.row + 1 {
        Some(Direction::South)
    } else if to.column == from.column && to.row < u32::MAX && to.row + 1 == from.row {
        Some(Direction::North)
    } else {
        None
    }
}

/// Whether the row-major mask marks `cell` as blocked.
fn mask_blocks(blocked: &[bool], columns: u32, cell: CellCoord) -> (b: bool)
    ensures
        b == is_blocked(blocked@, columns, cell),
{
    proof {
        assert(cell.row * columns <= 0xffff_ffff * 0xffff_ffff) by (nonlinear_arith)
            requires
                cell.row <= 0xffff_ffff,
                columns <= 0xffff_ffff,
        ;
    }
    let offset: u128 = cell.row as u128 * columns as u128 + cell.column as u128;
    if offset < blocked.len() as u128 {
        blocked[offset as usize]
    } else {
        false
    }
}

impl CrowdPlanner {
    /// An empty planner.
    pub fn new() -> (p: Self)
        ensures
            p.targets@.len() == 0,
            p.prepared_dimensions is None,
    {
        CrowdPlanner { targets: Vec::new(), prepared_dimensions: None }
    }

    /// Caches the exit cells and grid dimensions, reporting the number of
    /// cells to plan over: zero without exits.
    pub fn prepare_workspace(
        &mut self,
        columns: u32,
        rows: u32,
        navigation_view: &NavigationFieldView,
        targets: &[CellCoord],
    ) -> (node_count: usize)
        ensures
            final(self).targets@ == targets@,
            final(self).prepared_dimensions == Some((columns, rows)),
            node_count == if targets@.len() == 0 || columns * rows > usize::MAX {
                0
            } else {
                columns * rows
            },
    {
        self.targets = vstd::slice::slice_to_vec(targets);
        self.prepared_dimensions = Some((columns, rows));
        if targets.len() == 0 {
            return 0;
        }
        proof {
            assert(columns * rows <= 0xffff_ffff * 0xffff_ffff) by (nonlinear_arith)
                requires
                    rows <= 0xffff_ffff,
                    columns <= 0xffff_ffff,
            ;
        }
        let count: u64 = columns as u64 * rows as u64;
        if count > usize::MAX as u64 {
            0
        } else {
            count as usize
        }
    }

    /// Considers neighbour `next` (if any) as the step for `bug`, keeping the
    /// better of it and `best` (see [`keep_better`]).
    fn consider(
        &self,
        bug: &BugSnapshot,
        current: u16,
        next: Option<CellCoord>,
        best: Option<(CellCoord, u16)>,
        navigation_view: &NavigationFieldView,
        occupancy_view: &OccupancyView,
        blocked: &[bool],
        columns: u32,
    ) -> (r: Option<(CellCoord, u16)>)
        requires
            best matches Some(b) ==> navigation_view.spec_distance(b.0) == Some(b.1),
        ensures
            r == if next is Some && qualifies(*bug, current, *navigation_view, *occupancy_view, blocked@, columns, next->0) {
                Some(keep_better(*navigation_view, best, next->0))
            } else {
                best
            },
    {
        let n = match next {
            Some(c) => c,
            None => {
                return best;
            },
        };
        if mask_blocks(blocked, columns, n) {
            return best;
        }
        if !cell_available_for(n, bug.id, occupancy_view) {
            return best;
        }
        let d = match navigation_view.distance(n) {
            Some(d) => d,
            None => {
                return best;
            },
        };
        if d >= current {
            return best;
        }
        match best {
            None => Some((n, d)),
            Some(b) => {
                let better = d < b.1 || (d == b.1 && (n.column < b.0.column || (n.column == b.0.column && n.row
                    < b.0.row)));
                if better {
                    Some((n, d))
                } else {
                    Some(b)
                }
            },
        }
    }

    /// The cell `bug` steps to down the navigation field (see [`gradient_step`]).
    pub fn plan_gradient_step(
        &self,
        bug: &BugSnapshot,
        navigation_view: &NavigationFieldView,
        occupancy_view: &OccupancyView,
        blocked: &[bool],
        columns: u32,
        rows: u32,
    ) -> (r: Option<CellCoord>)
        ensures
            r == gradient_step(*bug, *navigation_view, *occupancy_view, blocked@, columns, rows),
    {
        let current = match navigation_view.distance(bug.cell) {
            Some(d) => d,
            None => {
                proof {
                    assert forall|c: CellCoord|
                        !is_best_step(*bug, *navigation_view, *occupancy_view, blocked@, columns, rows, c) by {}
                }
                return None;
            },
        };
        let north = advance_cell(bug.cell, Direction::North, columns, rows);
        let west = advance_cell(bug.cell, Direction::West, columns, rows);
        let east = advance_cell(bug.cell, Direction::East, columns, rows);
        let south = advance_cell(bug.cell, Direction::South, columns, rows);
        let b1 = self.consider(bug, current, north, None, navigation_view, occupancy_view, blocked, columns);
        let b2 = self.consider(bug, current, west, b1, navigation_view, occupancy_view, blocked, columns);
        let b3 = self.consider(bug, current, east, b2, navigation_view, occupancy_view, blocked, columns);
        let b4 = self.consider(bug, current, south, b3, navigation_view, occupancy_view, blocked, columns);
        let ghost q = |c: CellCoord| qualifies(*bug, current, *navigation_view, *occupancy_view, blocked@, columns, c);
        let ghost nav = *navigation_view;
        proof {
            // Every qualifying neighbour is matched or beaten by the kept candidate.
            assert(north is Some && q(north->0) ==> b1 is Some && ((b1->0).0 == north->0 || ranks_before(nav, (b1->0).0, north->0)));
            assert(north is Some && q(north->0) ==> b2 is Some && ((b2->0).0 == north->0 || ranks_before(nav, (b2->0).0, north->0)));
            assert(west is Some && q(west->0) ==> b2 is Some && ((b2->0).0 == west->0 || ranks_before(nav, (b2->0).0, west->0)));
            assert(north is Some && q(north->0) ==> b3 is Some && ((b3->0).0 == north->0 || ranks_before(nav, (b3->0).0, north->0)));
            assert(west is Some && q(west->0) ==> b3 is Some && ((b3->0).0 == west->0 || ranks_before(nav, (b3->0).0, west->0)));
            assert(east is Some && q(east->0) ==> b3 is Some && ((b3->0).0 == east->0 || ranks_before(nav, (b3->0).0, east->0)));
            assert(north is Some && q(north->0) ==> b4 is Some && ((b4->0).0 == north->0 || ranks_before(nav, (b4->0).0, north->0)));
            assert(west is Some && q(west->0) ==> b4 is Some && ((b4->0).0 == west->0 || ranks_before(nav, (b4->0).0, west->0)));
            assert(east is Some && q(east->0) ==> b4 is Some && ((b4->0).0 == east->0 || ranks_before(nav, (b4->0).0, east->0)));
            assert(south is Some && q(south->0) ==> b4 is Some && ((b4->0).0 == south->0 || ranks_before(nav, (b4->0).0, south->0)));
            // The kept candidate is one of the qualifying neighbours.
            assert(b4 matches Some(c) ==> (north is Some && c.0 == north->0 && q(c.0)) || (west is Some && c.0
                == west->0 && q(c.0)) || (east is Some && c.0 == east->0 && q(c.0)) || (south is Some && c.0
                == south->0 && q(c.0)));
        }
        match b4 {
            Some(c) => {
                proof {
                    assert(descends(*bug, nav, *occupancy_view, blocked@, columns, rows, c.0));
                    assert forall|other: CellCoord|
                        #[trigger] descends(*bug, nav, *occupancy_view, blocked@, columns, rows, other) && other
                            != c.0 implies ranks_before(nav, c.0, other) by {
                        assert(q(other));
                    }
                    assert(is_best_step(*bug, nav, *occupancy_view, blocked@, columns, rows, c.0));
                    let chosen = choose|x: CellCoord| is_best_step(*bug, nav, *occupancy_view, blocked@, columns, rows, x);
                    lemma_best_step_unique(*bug, nav, *occupancy_view, blocked@, columns, rows, c.0, chosen);
                }
                Some(c.0)
            },
            None => {
                proof {
                    assert forall|c: CellCoord| !is_best_step(*bug, nav, *occupancy_view, blocked@, columns, rows, c) by {
                        if descends(*bug, nav, *occupancy_view, blocked@, columns, rows, c) {
                            assert(q(c));
                        }
                    }
                }
                None
            },
        }
    }
}

impl CrowdPlanner {
    /// Appends the step commands for the bugs of `bug_view`, ordered by
    /// identifier (see [`step_commands`]).
    fn emit_step_commands(
        &mut self,
        bug_view: &BugView,
        occupancy_view: &OccupancyView,
        navigation_view: &NavigationFieldView,
        columns: u32,
        rows: u32,
        blocked: &[bool],
        out: &mut Vec<Command>,
    ) -> (ordered: Ghost<Seq<BugSnapshot>>)
        requires
            old(self).targets@.len() > 0,
        ensures
            *final(self) == *old(self),
            is_stable_key_order(bug_view.snapshots@, ordered@),
            final(out)@ == old(out)@ + step_commands(
                ordered@,
                old(self).targets@,
                *navigation_view,
                *occupancy_view,
                blocked@,
                columns,
                rows,
            ),
    {
        let ordered = stable_sort_by_key(&bug_view.snapshots);
        let ghost start = out@;
        let ghost exits = self.targets@;
        let mut i: usize = 0;
        assert(ordered@.take(0) =~= Seq::<BugSnapshot>::empty());
        while i < ordered.len()
            invariant
                i <= ordered@.len(),
                exits == self.targets@,
                exits.len() > 0,
                out@ == start + step_commands(
                    ordered@.take(i as int),
                    exits,
                    *navigation_view,
                    *occupancy_view,
                    blocked@,
                    columns,
                    rows,
                ),
            decreases ordered@.len() - i,
        {
            let bug = ordered[i];
            proof {
                assert(ordered@.take(i + 1).drop_last() =~= ordered@.take(i as int));
                assert(ordered@.take(i + 1).last() == bug);
            }
            let ghost before = out@;
            if bug.ready_for_step {
                match select_goal(bug.cell, self.targets.as_slice()) {
                    Some(goal) => {
                        proof {
                            if exits.contains(bug.cell) && goal.cell != bug.cell {
                                let k = choose|k: int| 0 <= k < exits.len() && exits[k] == bug.cell;
                                assert(exits[k] != goal.cell);
                            }
                        }
                        if bug.cell.column != goal.cell.column || bug.cell.row != goal.cell.row {
                            match self.plan_gradient_step(&bug, navigation_view, occupancy_view, blocked, columns, rows) {
                                Some(next_cell) => {
                                    proof {
                                        let chosen = choose|x: CellCoord|
                                            is_best_step(bug, *navigation_view, *occupancy_view, blocked@, columns, rows, x);
                                        assert(is_best_step(bug, *navigation_view, *occupancy_view, blocked@, columns, rows, next_cell));
                                    }
                                    if cell_available_for(next_cell, bug.id, occupancy_view) {
                                        match direction_between(bug.cell, next_cell) {
                                            Some(direction) => {
                                                out.push(Command::StepBug { bug_id: bug.id, direction });
                                            },
                                            None => {},
                                        }
                                    }
                                },
                                None => {},
                            }
                        }
                    },
                    None => {},
                }
            }
            i = i + 1;
        }
        assert(ordered@.take(ordered@.len() as int) =~= ordered@);
        Ghost(ordered@)
    }
}

/// Movement system: bugs ready to step descend the navigation field.
#[derive(Debug)]
pub struct Movement {
    pub planner: CrowdPlanner,
    pub play_mode: PlayMode,
}

impl Default for Movement {
    fn default() -> (m: Self)
        ensures
            m.planner.targets@.len() == 0,
            m.planner.prepared_dimensions is None,
            m.play_mode == PlayMode::Attack,
    {
        Movement { planner: CrowdPlanner::new(), play_mode: PlayMode::Attack }
    }
}

/// Whether some event advanced the simulation clock.
fn any_tick(events: &[Event]) -> (b: bool)
    ensures
        b == has_tick(events@),
{
    let mut i: usize = 0;
    while i < events.len()
        invariant
            i <= events@.len(),
            forall|j: int| 0 <= j < i ==> !(events@[j] is TimeAdvanced),
        decreases events@.len() - i,
    {
        if let Event::TimeAdvanced { .. } = &events[i] {
            return true;
        }
        i = i + 1;
    }
    false
}

impl Movement {
    /// Follows the play mode announced by `events`. Outside builder mode the
    /// exit cells and grid dimensions are cached, and when the grid has exits
    /// and cells and the events advanced the clock, every bug ready to step
    /// that stands on no exit moves to its best neighbour down the navigation
    /// field, in bug identifier order (see [`step_commands`]). `is_cell_blocked`
    /// is the row-major mask of cells blocked by walls, towers or bugs.
    pub fn handle(
        &mut self,
        events: &[Event],
        bug_view: &BugView,
        occupancy_view: &OccupancyView,
        navigation_view: &NavigationFieldView,
        reservation_ledger: &ReservationLedgerView,
        targets: &[CellCoord],
        is_cell_blocked: &[bool],
        out: &mut Vec<Command>,
    )
        ensures
            final(self).play_mode == mode_after(old(self).play_mode, events@),
            final(self).play_mode == PlayMode::Builder ==> final(self).planner == old(self).planner
                && final(out)@ == old(out)@,
            final(self).play_mode != PlayMode::Builder ==> {
                let columns = occupancy_view.columns;
                let rows = occupancy_view.rows;
                let planning = targets@.len() > 0 && columns * rows <= usize::MAX && columns * rows != 0
                    && has_tick(events@);
                &&& final(self).planner.targets@ == targets@
                &&& final(self).planner.prepared_dimensions == Some((columns, rows))
                &&& !planning ==> final(out)@ == old(out)@
                &&& planning ==> exists|ordered: Seq<BugSnapshot>| #[trigger]
                    is_stable_key_order(bug_view.snapshots@, ordered) && final(out)@ == old(out)@
                        + step_commands(
                        ordered,
                        targets@,
                        *navigation_view,
                        *occupancy_view,
                        is_cell_blocked@,
                        columns,
                        rows,
                    )
            },
    {
        self.play_mode = track_play_mode(self.play_mode, events);
        if self.play_mode == PlayMode::Builder {
            return;
        }
        let (columns, rows) = occupancy_view.dimensions();
        let node_count = self.planner.prepare_workspace(columns, rows, navigation_view, targets);
        if node_count == 0 {
            return;
        }
        if !any_tick(events) {
            return;
        }
        let ordered = self.planner.emit_step_commands(
            bug_view,
            occupancy_view,
            navigation_view,
            columns,
            rows,
            is_cell_blocked,
            out,
        );
        proof {
            assert(is_stable_key_order(bug_view.snapshots@, ordered@));
        }
    }
}

} // verus!
