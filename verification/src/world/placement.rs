//! Tower placement and removal.

use vstd::prelude::*;
use crate::core_types::geometry::{CellCoord, CellRect, CellRectSize, rect_contains};
use crate::core_types::fields::row_major;
use crate::core_types::messages::Event;
use crate::core_types::time::Duration;
use crate::core_types::values::{
    Gold, PlacementError, PlayMode, RemovalError, TowerId, TowerKind, spec_build_cost,
};
use super::grid_math::{cell_of_index, in_grid, lemma_cell_of_index, lemma_row_major};
use super::grids::BitGrid;
use super::navigation::{NavProblem, reachable_cells, reaches_somehow};
use super::state::World;
use super::towers::{TowerState, entry_of, has_id, footprint_for};

verus! {

/// Whether a tower placement charges the tower's build cost.
#[derive(Clone, Copy, Debug, PartialEq, Eq, Structural)]
pub enum TowerPlacementCost {
    /// Regular placement paid with gold.
    SpendGold,
    /// Placement restored from a saved layout, free of charge.
    IgnoreGold,
}

/// Tower origins must sit on the half-tile lattice when tiles are subdivided
/// into more than three cells: `(origin - 1)` must be a multiple of
/// `cells_per_tile / 2` on both axes.
pub open spec fn aligned(cells_per_tile: u32, origin: CellCoord) -> bool {
    let stride = cells_per_tile / 2;
    stride <= 1 || (origin.column >= 1 && origin.row >= 1 && (origin.column - 1) % (stride as int) == 0
        && (origin.row - 1) % (stride as int) == 0)
}

/// The footprint of a tower placed at `origin`.
pub open spec fn tower_region(kind: TowerKind, origin: CellCoord) -> CellRect {
    CellRect { origin, size: CellRectSize { width: 2, height: 2 } }
}

/// `region` is non-empty and lies inside a grid of the given dimensions.
pub open spec fn region_within(region: CellRect, columns: int, rows: int) -> bool {
    &&& region.size.width > 0 && region.size.height > 0
    &&& region.origin.column + region.size.width <= columns
    &&& region.origin.row + region.size.height <= rows
}

impl World {
    /// A cell a tower footprint may not cover: a wall, a tower or a bug.
    pub open spec fn cell_taken(&self, c: CellCoord) -> bool {
        self.tower_occupancy.has(c) || self.walls.grid.has(c) || self.occupancy.occupant(c) is Some
    }

    /// Some cell of `region` is taken.
    pub open spec fn region_taken(&self, region: CellRect) -> bool {
        exists|c: CellCoord| rect_contains(region, c) && #[trigger] self.cell_taken(c)
    }

    /// Cells a bug could not walk through if a tower stood on `candidate`.
    pub open spec fn blocked_with_candidate(&self, candidate: CellRect, c: CellCoord) -> bool {
        rect_contains(candidate, c) || self.cell_taken(c)
    }

    /// Row-major mask of [`World::blocked_with_candidate`].
    pub open spec fn candidate_mask(&self, candidate: CellRect) -> Seq<bool> {
        Seq::new(
            (self.columns() * self.rows()) as nat,
            |i: int| self.blocked_with_candidate(candidate, cell_of_index(i, self.columns() as int)),
        )
    }

    /// With a tower on `candidate`, some spawner could still walk to an exit
    /// (trivially so without exits, spawners or cells).
    pub open spec fn exit_path_available(&self, candidate: CellRect) -> bool {
        ||| self.targets@.len() == 0
        ||| self.bug_spawners.cells@.len() == 0
        ||| self.columns() * self.rows() == 0
        ||| exists|s: CellCoord| #[trigger] self.bug_spawners.cells@.contains(s) && reaches_somehow(
            NavProblem {
                width: self.columns(),
                height: self.rows(),
                blocked: self.candidate_mask(candidate),
                exits: self.targets@,
            },
            s,
        )
    }

    /// Why placing a `kind` tower at `origin` is refused, if it is.
    pub open spec fn placement_rejection(&self, kind: TowerKind, origin: CellCoord, cost: TowerPlacementCost) -> Option<
        PlacementError,
    > {
        let region = tower_region(kind, origin);
        if self.play_mode != PlayMode::Builder {
            Some(PlacementError::InvalidMode)
        } else if !aligned(self.cells_per_tile, origin) {
            Some(PlacementError::Misaligned)
        } else if !region_within(region, self.columns() as int, self.rows() as int) {
            Some(PlacementError::OutOfBounds)
        } else if self.region_taken(region) {
            Some(PlacementError::Occupied)
        } else if !self.exit_path_available(region) {
            Some(PlacementError::PathBlocked)
        } else if cost == TowerPlacementCost::SpendGold && self.gold.0 < spec_build_cost(kind) {
            Some(PlacementError::InsufficientFunds)
        } else {
            None
        }
    }

    /// Whether the tower origin is on the placement lattice.
    fn origin_aligned(&self, origin: CellCoord) -> (b: bool)
        ensures
            b == aligned(self.cells_per_tile, origin),
    {
        let stride = self.cells_per_tile / 2;
        if stride <= 1 {
            return true;
        }
        if origin.column < 1 || origin.row < 1 {
            return false;
        }
        (origin.column - 1) % stride == 0 && (origin.row - 1) % stride == 0
    }

    /// Whether `region` lies inside the grid.
    fn tower_region_within_bounds(&self, region: CellRect) -> (b: bool)
        requires
            self.grids_well_formed(),
        ensures
            b == region_within(region, self.columns() as int, self.rows() as int),
    {
        let columns = self.tower_occupancy.columns;
        let rows = self.tower_occupancy.rows;
        let size = region.size;
        if size.width == 0 || size.height == 0 {
            return false;
        }
        let origin = region.origin;
        if origin.column >= columns || origin.row >= rows {
            return false;
        }
        if origin.column > u32::MAX - size.width || origin.row > u32::MAX - size.height {
            return false;
        }
        origin.column + size.width <= columns && origin.row + size.height <= rows
    }

    /// Whether a wall, tower or bug stands on `c`.
    fn cell_is_taken(&self, c: CellCoord) -> (b: bool)
        requires
            self.grids_well_formed(),
        ensures
            b == self.cell_taken(c),
    {
        self.tower_occupancy.contains(c) || self.walls.contains(c) || !self.occupancy.can_enter(c)
    }

    /// Whether some cell of an in-bounds `region` is taken.
    fn tower_region_occupied(&self, region: CellRect) -> (b: bool)
        requires
            self.grids_well_formed(),
            region_within(region, self.columns() as int, self.rows() as int),
        ensures
            b == self.region_taken(region),
    {
        let origin = region.origin;
        let size = region.size;
        let mut dc: u32 = 0;
        while dc < size.width
            invariant
                self.grids_well_formed(),
                region_within(region, self.columns() as int, self.rows() as int),
                origin == region.origin,
                size == region.size,
                dc <= size.width,
                forall|c: CellCoord| rect_contains(region, c) && c.column < origin.column + dc
                    ==> !#[trigger] self.cell_taken(c),
            decreases size.width - dc,
        {
            let mut dr: u32 = 0;
            while dr < size.height
                invariant
                    self.grids_well_formed(),
                    region_within(region, self.columns() as int, self.rows() as int),
                    origin == region.origin,
                    size == region.size,
                    dc < size.width,
                    dr <= size.height,
                    forall|c: CellCoord| rect_contains(region, c) && (c.column < origin.column + dc
                        || (c.column == origin.column + dc && c.row < origin.row + dr))
                        ==> !#[trigger] self.cell_taken(c),
                decreases size.height - dr,
            {
                let c = CellCoord { column: origin.column + dc, row: origin.row + dr };
                if self.cell_is_taken(c) {
                    assert(rect_contains(region, c));
                    return true;
                }
                dr = dr + 1;
            }
            dc = dc + 1;
        }
        false
    }

    /// Row-major mask of the cells blocked for bugs were a tower placed on `candidate`.
    fn build_candidate_mask(&self, candidate: CellRect) -> (r: Vec<bool>)
        requires
            self.grids_well_formed(),
        ensures
            r@ == self.candidate_mask(candidate),
    {
        let columns = self.occupancy.columns;
        let n = self.occupancy.cells.len();
        let mut out: Vec<bool> = Vec::new();
        let mut i: usize = 0;
        while i < n
            invariant
                self.grids_well_formed(),
                columns == self.columns(),
                n == self.columns() * self.rows(),
                i <= n,
                out@.len() == i,
                forall|j: int| 0 <= j < i ==> out@[j] == self.blocked_with_candidate(
                    candidate,
                    cell_of_index(j, columns as int),
                ),
            decreases n - i,
        {
            proof {
                assert(columns > 0) by (nonlinear_arith)
                    requires
                        i < n,
                        n == columns * self.rows(),
                ;
            }
            let c = CellCoord { column: (i % columns as usize) as u32, row: (i / columns as usize) as u32 };
            assert(c == cell_of_index(i as int, columns as int));
            let blocked = candidate.contains(c) || self.cell_is_taken(c);
            out.push(blocked);
            i = i + 1;
        }
        assert(out@ =~= self.candidate_mask(candidate));
        out
    }

    /// Whether, with a tower on `candidate`, some spawner could still walk to an exit.
    fn exit_path_remains_available(&self, candidate: CellRect) -> (b: bool)
        requires
            self.grids_well_formed(),
            forall|c: CellCoord| #[trigger] self.bug_spawners.cells@.contains(c)
                ==> super::grids::is_spawner_cell(self.columns(), self.rows(), c),
        ensures
            b == self.exit_path_available(candidate),
    {
        if self.targets.len() == 0 || self.bug_spawners.is_empty() || self.occupancy.cells.len() == 0 {
            return true;
        }
        let columns = self.occupancy.columns;
        let rows = self.occupancy.rows;
        let mask = self.build_candidate_mask(candidate);
        let reach = reachable_cells(columns, rows, self.targets.as_slice(), &mask);
        let ghost p = NavProblem { width: columns, height: rows, blocked: mask@, exits: self.targets@ };
        let spawners = self.bug_spawners.iter();
        let mut i: usize = 0;
        while i < spawners.len()
            invariant
                i <= spawners@.len(),
                spawners@ == self.bug_spawners.cells@,
                mask@ == self.candidate_mask(candidate),
                p == (NavProblem { width: columns, height: rows, blocked: mask@, exits: self.targets@ }),
                self.grids_well_formed(),
                columns == self.columns(),
                rows == self.rows(),
                reach@.len() == columns * rows,
                forall|c: CellCoord| #![trigger reach@[row_major(c, columns as int)]]
                    in_grid(c, columns as int, rows as int) ==> reach@[row_major(c, columns as int)]
                    == reaches_somehow(p, c),
                forall|c: CellCoord| #[trigger] self.bug_spawners.cells@.contains(c)
                    ==> super::grids::is_spawner_cell(self.columns(), self.rows(), c),
                forall|j: int| 0 <= j < i ==> !reaches_somehow(p, #[trigger] spawners@[j]),
            decreases spawners@.len() - i,
        {
            let s = spawners[i];
            proof {
                assert(self.bug_spawners.cells@.contains(s));
                lemma_row_major(s, s, columns as int, rows as int);
            }
            let offset = s.row as usize * columns as usize + s.column as usize;
            assert(offset == row_major(s, columns as int));
            if reach[offset] {
                assert(self.bug_spawners.cells@.contains(s));
                assert(reaches_somehow(p, s));
                assert(p.blocked == self.candidate_mask(candidate));
                return true;
            }
            i = i + 1;
        }
        proof {
            assert forall|s: CellCoord| #[trigger] self.bug_spawners.cells@.contains(s)
                implies !reaches_somehow(p, s) by {
                let j = choose|j: int| 0 <= j < spawners@.len() && spawners@[j] == s;
                assert(!reaches_somehow(p, spawners@[j]));
            }
        }
        false
    }
}


/// `w1` and `e1` are the world and event list after `w0` and `e0` handled a
/// request to place a `kind` tower at `origin` under `cost_policy`.
pub open spec fn placement_result(w0: World, w1: World, kind: TowerKind, origin: CellCoord, cost_policy: TowerPlacementCost, e0: Seq<Event>, e1: Seq<Event>) -> bool {
    &&& w0.placement_rejection(kind, origin, cost_policy) matches Some(reason) ==> {
        &&& w1 == w0
        &&& e1 =~= e0.push(
            Event::TowerPlacementRejected { kind, origin, reason },
        )
    }
    &&& w0.placement_rejection(kind, origin, cost_policy) is None ==> {
        let id = w0.towers.next_tower_id;
        let region = tower_region(kind, origin);
        let paid = cost_policy == TowerPlacementCost::SpendGold;
        let gold = if paid { w0.gold.0 - spec_build_cost(kind) } else { w0.gold.0 as int };
        &&& w1.gold.0 == gold
        &&& e1 =~= e0 + (if paid && spec_build_cost(kind) != 0 {
            seq![Event::GoldChanged { amount: Gold(gold as u32) }]
        } else {
            Seq::<Event>::empty()
        }) + seq![Event::TowerPlaced { tower: id, kind, region }]
        &&& w1.towers.next_tower_id.0 == id.0 + 1
        &&& forall|x: u32| #[trigger] has_id(w1.towers.entries@, x) == (x == id.0 || has_id(
            w0.towers.entries@,
            x,
        ))
        &&& entry_of(w1.towers.entries@, id.0) == (TowerState {
            id,
            kind,
            region,
            cooldown_remaining: w1.towers.entries@[index_of_new(w1.towers.entries@, id.0)].cooldown_remaining,
        })
        &&& entry_of(w1.towers.entries@, id.0).cooldown_remaining.spec_nanos() == 0
        &&& forall|x: u32| x != id.0 && has_id(w0.towers.entries@, x) ==> #[trigger] entry_of(
            w1.towers.entries@,
            x,
        ) == entry_of(w0.towers.entries@, x)
        &&& forall|c: CellCoord| #[trigger] w1.tower_occupancy.has(c) == (rect_contains(region, c)
            || w0.tower_occupancy.has(c))
        &&& w1 == (World {
            gold: w1.gold,
            towers: w1.towers,
            tower_occupancy: w1.tower_occupancy,
            navigation_field: w1.navigation_field,
            ..w0
        })
    }
}

/// The empty region: no cell lies in it.
pub open spec fn no_region() -> CellRect {
    CellRect { origin: CellCoord { column: 0, row: 0 }, size: CellRectSize { width: 0, height: 0 } }
}

impl World {
    /// Some spawner can walk to an exit through cells free of walls, towers
    /// and bugs (trivially so without exits, spawners or cells).
    pub open spec fn exit_reachable(&self) -> bool {
        self.exit_path_available(no_region())
    }
}

/// A tower is only ever placed where it leaves some spawner a walk to an
/// exit: after an accepted placement the maze is not sealed.
pub proof fn lemma_placement_keeps_exit_reachable(
    w0: World,
    w1: World,
    kind: TowerKind,
    origin: CellCoord,
    cost_policy: TowerPlacementCost,
    e0: Seq<Event>,
    e1: Seq<Event>,
)
    requires
        placement_result(w0, w1, kind, origin, cost_policy, e0, e1),
        w0.placement_rejection(kind, origin, cost_policy) is None,
    ensures
        w1.exit_reachable(),
{
    let region = tower_region(kind, origin);
    assert(w1.columns() == w0.columns() && w1.rows() == w0.rows());
    assert forall|c: CellCoord| #[trigger] w1.blocked_with_candidate(no_region(), c) == w0.blocked_with_candidate(
        region,
        c,
    ) by {
        assert(w1.tower_occupancy.has(c) == (rect_contains(region, c) || w0.tower_occupancy.has(c)));
    }
    assert(w1.candidate_mask(no_region()) =~= w0.candidate_mask(region));
}

impl World {
    /// Sets or clears the tower flag of every cell of an in-bounds `region`.
    pub(crate) fn mark_tower_region(&mut self, region: CellRect, occupied: bool)
        requires
            old(self).grids_well_formed(),
            region_within(region, old(self).columns() as int, old(self).rows() as int),
        ensures
            final(self).grids_well_formed(),
            forall|c: CellCoord| #[trigger] final(self).tower_occupancy.has(c) == if rect_contains(region, c) {
                occupied
            } else {
                old(self).tower_occupancy.has(c)
            },
            *final(self) == (World { tower_occupancy: final(self).tower_occupancy, ..*old(self) }),
    {
        let origin = region.origin;
        let size = region.size;
        let ghost g0 = self.tower_occupancy;
        let mut dc: u32 = 0;
        while dc < size.width
            invariant
                self.grids_well_formed(),
                region_within(region, self.columns() as int, self.rows() as int),
                origin == region.origin,
                size == region.size,
                dc <= size.width,
                *self == (World { tower_occupancy: self.tower_occupancy, ..*old(self) }),
                g0 == old(self).tower_occupancy,
                forall|c: CellCoord| #[trigger] self.tower_occupancy.has(c) == if rect_contains(region, c)
                    && c.column < origin.column + dc {
                    occupied
                } else {
                    g0.has(c)
                },
            decreases size.width - dc,
        {
            let mut dr: u32 = 0;
            while dr < size.height
                invariant
                    self.grids_well_formed(),
                    region_within(region, self.columns() as int, self.rows() as int),
                    origin == region.origin,
                    size == region.size,
                    dc < size.width,
                    dr <= size.height,
                    *self == (World { tower_occupancy: self.tower_occupancy, ..*old(self) }),
                    g0 == old(self).tower_occupancy,
                    forall|c: CellCoord| #[trigger] self.tower_occupancy.has(c) == if rect_contains(region, c)
                        && (c.column < origin.column + dc || (c.column == origin.column + dc && c.row
                        < origin.row + dr)) {
                        occupied
                    } else {
                        g0.has(c)
                    },
                decreases size.height - dr,
            {
                let c = CellCoord { column: origin.column + dc, row: origin.row + dr };
                self.tower_occupancy.assign(c, occupied);
                dr = dr + 1;
            }
            dc = dc + 1;
        }
    }

    /// Places a `kind` tower with its upper-left cell at `origin`.
    ///
    /// The request is refused, with the first reason that applies and nothing
    /// else changed, unless the world is in builder mode, the origin is on
    /// the placement lattice, the 2x2 footprint lies inside the grid and on no
    /// wall, tower or bug, some spawner could still walk to an exit around the
    /// new tower, and (for paid placements) the gold covers the build cost.
    /// Otherwise the cost is paid (announced when the balance changes), the
    /// tower is stored under the next identifier and marks its footprint, the
    /// navigation field is recomputed and `TowerPlaced` is announced.
    pub fn handle_place_tower(
        &mut self,
        kind: TowerKind,
        origin: CellCoord,
        cost_policy: TowerPlacementCost,
        out_events: &mut Vec<Event>,
    )
        requires
            old(self).well_formed(),
            old(self).towers.next_tower_id.0 < u32::MAX,
        ensures
            final(self).well_formed(),
            placement_result(*old(self), *final(self), kind, origin, cost_policy, old(out_events)@, final(out_events)@),
    {
        let ghost w0 = *self;
        if self.play_mode != PlayMode::Builder {
            out_events.push(Event::TowerPlacementRejected { kind, origin, reason: PlacementError::InvalidMode });
            return;
        }
        if !self.origin_aligned(origin) {
            out_events.push(Event::TowerPlacementRejected { kind, origin, reason: PlacementError::Misaligned });
            return;
        }
        let footprint = footprint_for(kind);
        let region = CellRect { origin, size: footprint };
        if !self.tower_region_within_bounds(region) {
            out_events.push(Event::TowerPlacementRejected { kind, origin, reason: PlacementError::OutOfBounds });
            return;
        }
        if self.tower_region_occupied(region) {
            out_events.push(Event::TowerPlacementRejected { kind, origin, reason: PlacementError::Occupied });
            return;
        }
        if !self.exit_path_remains_available(region) {
            out_events.push(Event::TowerPlacementRejected { kind, origin, reason: PlacementError::PathBlocked });
            return;
        }
        let ghost events0 = out_events@;
        if cost_policy == TowerPlacementCost::SpendGold {
            let cost = kind.build_cost();
            if self.gold.0 < cost.0 {
                out_events.push(
                    Event::TowerPlacementRejected { kind, origin, reason: PlacementError::InsufficientFunds },
                );
                return;
            }
            let remaining = self.gold.saturating_sub(cost);
            if remaining.0 != self.gold.0 {
                self.gold = remaining;
                out_events.push(Event::GoldChanged { amount: remaining });
            }
        }
        let ghost events1 = out_events@;
        let id = self.towers.allocate();
        self.mark_tower_region(region, true);
        self.rebuild_navigation();
        let ghost before_insert = self.towers;
        self.towers.insert(TowerState { id, kind, region, cooldown_remaining: Duration::zero() });
        out_events.push(Event::TowerPlaced { tower: id, kind, region });
        proof {
            let e = self.towers.entries@;
            lemma_new_entry_facts(e, id.0);
            // The stored towers keep their own regions; the new footprint was free.
            assert forall|i: int| 0 <= i < e.len() implies {
                let t = #[trigger] e[i];
                &&& region_within(t.region, self.columns() as int, self.rows() as int)
                &&& t.id.0 < self.towers.next_tower_id.0
            } by {
                super::towers::lemma_entry_at(e, i);
                if e[i].id != id {
                    assert(has_id(w0.towers.entries@, e[i].id.0));
                    let k = super::towers::index_of_id(w0.towers.entries@, e[i].id.0);
                    super::towers::lemma_entry_at(w0.towers.entries@, k);
                }
            }
            assert forall|c: CellCoord| #[trigger] self.tower_occupancy.has(c) <==> exists|i: int|
                0 <= i < e.len() && rect_contains(#[trigger] e[i].region, c) by {
                if self.tower_occupancy.has(c) {
                    if rect_contains(region, c) {
                        let k = super::towers::index_of_id(e, id.0);
                        assert(rect_contains(e[k].region, c));
                    } else {
                        assert(w0.tower_occupancy.has(c));
                        let k = choose|k: int| 0 <= k < w0.towers.entries@.len() && rect_contains(#[trigger] w0.towers.entries@[k].region, c);
                        let t = w0.towers.entries@[k];
                        super::towers::lemma_entry_at(w0.towers.entries@, k);
                        assert(t.id.0 < id.0);
                        assert(has_id(e, t.id.0));
                        assert(entry_of(e, t.id.0) == entry_of(w0.towers.entries@, t.id.0));
                        let m = super::towers::index_of_id(e, t.id.0);
                        super::towers::lemma_entry_at(e, m);
                        assert(e[m] == t);
                    }
                }
                if exists|i: int| 0 <= i < e.len() && rect_contains(#[trigger] e[i].region, c) {
                    let i = choose|i: int| 0 <= i < e.len() && rect_contains(#[trigger] e[i].region, c);
                    super::towers::lemma_entry_at(e, i);
                    if e[i].id != id {
                        let k = super::towers::index_of_id(w0.towers.entries@, e[i].id.0);
                        super::towers::lemma_entry_at(w0.towers.entries@, k);
                        assert(rect_contains(w0.towers.entries@[k].region, c));
                    }
                }
            }
            assert forall|i: int, j: int, c: CellCoord|
                #![trigger rect_contains(e[i].region, c), rect_contains(e[j].region, c)]
                0 <= i < e.len() && 0 <= j < e.len() && i != j
                && rect_contains(e[i].region, c) implies !rect_contains(e[j].region, c) by {
                super::towers::lemma_entry_at(e, i);
                super::towers::lemma_entry_at(e, j);
                if e[i].id == id {
                    let k = super::towers::index_of_id(w0.towers.entries@, e[j].id.0);
                    super::towers::lemma_entry_at(w0.towers.entries@, k);
                    if rect_contains(e[j].region, c) {
                        assert(w0.tower_occupancy.has(c));
                        assert(w0.cell_taken(c));
                    }
                } else if e[j].id == id {
                    let k = super::towers::index_of_id(w0.towers.entries@, e[i].id.0);
                    super::towers::lemma_entry_at(w0.towers.entries@, k);
                    assert(w0.tower_occupancy.has(c));
                    assert(w0.cell_taken(c));
                } else {
                    let ki = super::towers::index_of_id(w0.towers.entries@, e[i].id.0);
                    let kj = super::towers::index_of_id(w0.towers.entries@, e[j].id.0);
                    super::towers::lemma_entry_at(w0.towers.entries@, ki);
                    super::towers::lemma_entry_at(w0.towers.entries@, kj);
                }
            }
            assert(out_events@ =~= old(out_events)@ + (events1.subrange(events0.len() as int, events1.len() as int))
                + seq![Event::TowerPlaced { tower: id, kind, region }]);
        }
    }
}

/// Position of the newly stored tower in the registry.
pub open spec fn index_of_new(s: Seq<TowerState>, id: u32) -> int {
    super::towers::index_of_id(s, id)
}

proof fn lemma_new_entry_facts(s: Seq<TowerState>, id: u32)
    requires
        super::towers::ids_increasing(s),
        has_id(s, id),
    ensures
        entry_of(s, id) == s[index_of_new(s, id)],
        0 <= index_of_new(s, id) < s.len(),
{
}

} // verus!
