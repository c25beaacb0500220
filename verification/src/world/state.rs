//! The authoritative world state and its invariants.

use vstd::prelude::*;
use crate::core_types::geometry::{CellCoord, CellPointHalf, rect_contains};
use crate::core_types::fields::row_major;
use crate::core_types::layout::{Target, TileGrid};
use crate::core_types::messages::Event;
use crate::core_types::time::Duration;
use crate::core_types::values::{BugColor, BugId, Damage, Gold, Health, PlayMode, ProjectileId, TileCoord, TowerId};
use super::grid_math::{in_grid, lemma_row_major};
use super::grids::{addressable, is_spawner_cell, BitGrid, BugSpawnerRegistry, MazeWalls, OccupancyGrid, ReservationFrame};
use super::geometry::{build_cell_walls, build_target, total_cell_columns, total_cell_rows};
use super::navigation::{NavProblem, NavigationField};
use super::bugs::{Bug, bug_ids_increasing};
use super::towers::TowerRegistry;

verus! {

/// Gold owned when a world is created.
pub const INITIAL_GOLD: u32 = 100;
/// Default bug step quantum in milliseconds.
pub const DEFAULT_STEP_QUANTUM_MS: u64 = 250;
/// Percentage of towers removed after a lost round.
pub const ROUND_LOSS_TOWER_REMOVAL_PERCENT: u32 = 50;

/// A projectile in flight.
#[derive(Clone, Copy, Debug)]
pub struct ProjectileState {
    pub id: ProjectileId,
    pub tower: TowerId,
    pub target: BugId,
    pub start: CellPointHalf,
    pub end: CellPointHalf,
    pub distance_half: u128,
    pub travelled_half: u128,
    pub travel_time_ms: u128,
    pub elapsed_ms: u128,
    pub damage: Damage,
}

/// Represents the authoritative Maze Defence world state.
#[derive(Debug)]
pub struct World {
    pub tile_grid: TileGrid,
    pub cells_per_tile: u32,
    pub target: Target,
    pub targets: Vec<CellCoord>,
    pub bugs: Vec<Bug>,
    pub bug_spawners: BugSpawnerRegistry,
    pub next_bug_id: u32,
    pub projectiles: Vec<ProjectileState>,
    pub next_projectile_id: ProjectileId,
    pub occupancy: OccupancyGrid,
    pub walls: MazeWalls,
    pub navigation_field: NavigationField,
    pub gold: Gold,
    pub difficulty_level: u32,
    pub towers: TowerRegistry,
    pub tower_occupancy: BitGrid,
    pub reservations: ReservationFrame,
    pub tick_index: u64,
    pub step_quantum: Duration,
    pub play_mode: PlayMode,
}

impl World {
    /// Cell columns of the world grid (borders and exit row included).
    pub open spec fn columns(&self) -> u32 {
        self.occupancy.columns
    }

    /// Cell rows of the world grid (borders and exit row included).
    pub open spec fn rows(&self) -> u32 {
        self.occupancy.rows
    }

    /// Row-major mask of the cells blocked by walls or towers.
    pub open spec fn structure_mask(&self) -> Seq<bool> {
        Seq::new(
            (self.columns() * self.rows()) as nat,
            |i: int| self.walls.grid.cells@[i] || self.tower_occupancy.cells@[i],
        )
    }

    /// The navigation problem the world's distance field answers: walk from
    /// any cell through cells free of walls and towers to an exit cell.
    pub open spec fn nav_problem(&self) -> NavProblem {
        NavProblem {
            width: self.columns(),
            height: self.rows(),
            blocked: self.structure_mask(),
            exits: self.targets@,
        }
    }

    /// The dense grids agree on the world's dimensions.
    pub open spec fn grids_well_formed(&self) -> bool {
        &&& self.occupancy.well_formed()
        &&& self.walls.well_formed()
        &&& self.tower_occupancy.well_formed()
        &&& self.walls.grid.columns == self.columns()
        &&& self.walls.grid.rows == self.rows()
        &&& self.tower_occupancy.columns == self.columns()
        &&& self.tower_occupancy.rows == self.rows()
        &&& addressable(self.columns(), self.rows())
        &&& self.columns() * self.rows() < 0xffff_ffff_ffff_fffe
    }

    /// The navigation field holds every cell's distance to the exit for the
    /// current walls and towers.
    pub open spec fn navigation_current(&self) -> bool {
        &&& self.navigation_field.width == self.columns()
        &&& self.navigation_field.height == self.rows()
        &&& self.nav_problem().is_distance_field(self.navigation_field.distances@)
    }

    /// Bugs are ordered by identifier, every identifier lies below the next
    /// one to hand out, bugs stand inside the grid on cells recorded in the
    /// occupancy grid (so on distinct cells), every occupied cell holds a
    /// bug, and no bug holds more than one step of accumulated time.
    pub open spec fn bugs_consistent(&self) -> bool {
        &&& bug_ids_increasing(self.bugs@)
        &&& forall|i: int| 0 <= i < self.bugs@.len() ==> {
            let b = #[trigger] self.bugs@[i];
            &&& in_grid(b.cell, self.columns() as int, self.rows() as int)
            &&& self.occupancy.occupant(b.cell) == Some(b.id)
            &&& b.accum_ms <= b.step_ms
            &&& b.id.0 < self.next_bug_id
        }
        &&& forall|c: CellCoord| #[trigger] self.occupancy.occupant(c) is Some ==> exists|i: int|
            0 <= i < self.bugs@.len() && #[trigger] self.bugs@[i].cell == c
                && Some(self.bugs@[i].id) == self.occupancy.occupant(c)
    }

    /// Projectiles in flight are ordered by identifier, below the next one to hand out.
    pub open spec fn projectiles_consistent(&self) -> bool {
        &&& forall|i: int, j: int| 0 <= i < j < self.projectiles@.len()
            ==> self.projectiles@[i].id.0 < self.projectiles@[j].id.0
        &&& forall|i: int| 0 <= i < self.projectiles@.len()
            ==> (#[trigger] self.projectiles@[i]).id.0 < self.next_projectile_id.0
    }

    /// The tower flags mark exactly the cells covered by stored towers.
    pub open spec fn towers_consistent(&self) -> bool {
        &&& self.towers.well_formed()
        &&& forall|i: int| 0 <= i < self.towers.entries@.len() ==> {
            let t = #[trigger] self.towers.entries@[i];
            &&& super::placement::region_within(t.region, self.columns() as int, self.rows() as int)
            &&& t.id.0 < self.towers.next_tower_id.0
        }
        &&& forall|i: int, j: int, c: CellCoord|
            #![trigger rect_contains(self.towers.entries@[i].region, c), rect_contains(self.towers.entries@[j].region, c)]
            0 <= i < self.towers.entries@.len() && 0 <= j < self.towers.entries@.len() && i != j
                && rect_contains(self.towers.entries@[i].region, c)
                ==> !rect_contains(self.towers.entries@[j].region, c)
        &&& forall|c: CellCoord| #[trigger] self.tower_occupancy.has(c) <==> exists|i: int|
            0 <= i < self.towers.entries@.len() && rect_contains(#[trigger] self.towers.entries@[i].region, c)
    }

    /// Every invariant but the navigation field being current.
    pub open spec fn state_consistent(&self) -> bool {
        &&& self.grids_well_formed()
        &&& self.bugs_consistent()
        &&& self.towers_consistent()
        &&& self.projectiles_consistent()
        &&& self.reservations.claims@.len() == 0
        &&& forall|c: CellCoord| #[trigger] self.bug_spawners.cells@.contains(c)
            <==> is_spawner_cell(self.columns(), self.rows(), c)
    }

    /// All world invariants.
    pub open spec fn well_formed(&self) -> bool {
        &&& self.state_consistent()
        &&& self.navigation_current()
    }
}

/// Builds the row-major mask of cells blocked by walls or towers.
pub fn structure_mask(walls: &BitGrid, towers: &BitGrid) -> (r: Vec<bool>)
    requires
        walls.well_formed(),
        towers.well_formed(),
        walls.columns == towers.columns,
        walls.rows == towers.rows,
    ensures
        r@ == Seq::new((walls.columns * walls.rows) as nat, |i: int| walls.cells@[i] || towers.cells@[i]),
{
    let mut out: Vec<bool> = Vec::new();
    let n = walls.cells.len();
    let mut i: usize = 0;
    while i < n
        invariant
            n == walls.cells@.len(),
            walls.cells@.len() == towers.cells@.len(),
            i <= n,
            out@.len() == i,
            forall|j: int| 0 <= j < i ==> out@[j] == (walls.cells@[j] || towers.cells@[j]),
        decreases n - i,
    {
        out.push(walls.cells[i] || towers.cells[i]);
        i = i + 1;
    }
    assert(out@ =~= Seq::new((walls.columns * walls.rows) as nat, |i: int| walls.cells@[i] || towers.cells@[i]));
    out
}

impl World {
    /// Recomputes the navigation field for the current walls, towers and exits.
    pub fn rebuild_navigation(&mut self)
        requires
            old(self).grids_well_formed(),
        ensures
            final(self).navigation_current(),
            *final(self) == (World { navigation_field: final(self).navigation_field, ..*old(self) }),
    {
        let mask = structure_mask(&self.walls.grid, &self.tower_occupancy);
        let columns = self.occupancy.columns;
        let rows = self.occupancy.rows;
        self.navigation_field.rebuild_with(columns, rows, self.targets.as_slice(), &mask);
    }

    /// Removes every bug and reservation and resets the bug identifier counter.
    pub fn clear_bugs(&mut self)
        requires
            old(self).grids_well_formed(),
        ensures
            final(self).grids_well_formed(),
            final(self).bugs@.len() == 0,
            final(self).next_bug_id == 0,
            final(self).reservations.claims@.len() == 0,
            final(self).reservations.tick_index == 0,
            forall|c: CellCoord| final(self).occupancy.occupant(c) is None,
            final(self).occupancy.columns == old(self).occupancy.columns,
            final(self).occupancy.rows == old(self).occupancy.rows,
            *final(self) == (World {
                bugs: final(self).bugs,
                occupancy: final(self).occupancy,
                reservations: final(self).reservations,
                next_bug_id: 0,
                ..*old(self)
            }),
    {
        self.bugs = Vec::new();
        self.occupancy.clear();
        self.reservations.clear();
        self.next_bug_id = 0;
    }
}


/// The bordered grid of a tile configuration is small enough to allocate and search.
pub open spec fn grid_fits(columns: TileCoord, rows: TileCoord, cells_per_tile: u32) -> bool {
    let cpt = if cells_per_tile == 0 { 1 } else { cells_per_tile as int };
    let c = super::geometry::spec_total_columns(columns.0 as int, cpt);
    let r = super::geometry::spec_total_rows(rows.0 as int, cpt);
    c * r <= usize::MAX && c * r < 0xffff_ffff_ffff_fffe
}

/// `w1` and `e1` are the world and event list after `w0` and `e0` switched to a
/// `columns` by `rows` tile grid with `cells_per_tile` cells per tile edge.
pub open spec fn configure_result(w0: World, w1: World, columns: TileCoord, rows: TileCoord, tile_length_bits: u32, cells_per_tile: u32, e0: Seq<Event>, e1: Seq<Event>) -> bool {
    &&& w1.tile_grid == TileGrid::new_spec(columns, rows, tile_length_bits)
    &&& w1.cells_per_tile == if cells_per_tile == 0 { 1 } else { cells_per_tile }
    &&& w1.columns() == super::geometry::spec_total_columns(
        columns.0 as int,
        w1.cells_per_tile as int,
    )
    &&& w1.rows() == super::geometry::spec_total_rows(rows.0 as int, w1.cells_per_tile as int)
    &&& w1.bugs@.len() == 0
    &&& w1.towers.entries@.len() == 0
    &&& w1.towers.next_tower_id.0 == 0
    &&& w1.next_bug_id == 0
    &&& w1.gold == w0.gold
    &&& w1.play_mode == w0.play_mode
    &&& w1.projectiles == w0.projectiles
    &&& w1.next_projectile_id == w0.next_projectile_id
    &&& w1.step_quantum == w0.step_quantum
    &&& w1.tick_index == w0.tick_index
    &&& w1.difficulty_level == 0
    &&& e1 =~= e0 + if w0.difficulty_level != 0 {
        seq![Event::DifficultyTierChanged { tier: 0 }]
    } else {
        Seq::<Event>::empty()
    }
}

impl World {
    /// Reconfigures the tile grid: rebuilds the exit, walls and spawners for
    /// the new dimensions (a zero `cells_per_tile` counts as one), removes
    /// every bug and tower, recomputes navigation and resets the difficulty
    /// level to zero, announcing that change when the level was not zero.
    pub fn configure_tile_grid(
        &mut self,
        columns: TileCoord,
        rows: TileCoord,
        tile_length_bits: u32,
        cells_per_tile: u32,
        out_events: &mut Vec<Event>,
    )
        requires
            grid_fits(columns, rows, cells_per_tile),
            old(self).projectiles_consistent(),
        ensures
            final(self).well_formed(),
            configure_result(*old(self), *final(self), columns, rows, tile_length_bits, cells_per_tile, old(out_events)@, final(out_events)@),
    {
        self.tile_grid = TileGrid::new(columns, rows, tile_length_bits);
        let normalized: u32 = if cells_per_tile == 0 { 1 } else { cells_per_tile };
        self.cells_per_tile = normalized;
        let (target, targets) = build_target(columns, rows, normalized);
        self.target = target;
        self.targets = targets;
        let total_columns = total_cell_columns(columns, normalized);
        let total_rows = total_cell_rows(rows, normalized);
        self.occupancy = OccupancyGrid::new(total_columns, total_rows);
        self.walls.rebuild(total_columns, total_rows, build_cell_walls(columns, rows, normalized));
        self.tower_occupancy = BitGrid::new(total_columns, total_rows);
        self.towers = TowerRegistry::new();
        self.bug_spawners.assign(total_columns, total_rows);
        self.clear_bugs();
        self.rebuild_navigation();
        proof {
            assert forall|c: CellCoord| #[trigger] self.tower_occupancy.has(c) <==> exists|i: int|
                0 <= i < self.towers.entries@.len() && rect_contains(#[trigger] self.towers.entries@[i].region, c) by {}
        }
        if self.difficulty_level != 0 {
            self.difficulty_level = 0;
            out_events.push(Event::DifficultyTierChanged { tier: 0 });
        }
    }

    /// Creates a world with a 10x10 tile grid of one cell per tile, 100 gold,
    /// no bugs or towers, in builder mode.
    pub fn new() -> (w: Self)
        ensures
            w.well_formed(),
            w.cells_per_tile == 1,
            w.tile_grid.columns.0 == 10,
            w.tile_grid.rows.0 == 10,
            w.columns() == 12,
            w.rows() == 13,
            w.gold.0 == INITIAL_GOLD,
            w.difficulty_level == 0,
            w.play_mode == PlayMode::Builder,
            w.bugs@.len() == 0,
            w.towers.entries@.len() == 0,
            w.towers.next_tower_id.0 == 0,
            w.projectiles@.len() == 0,
            w.next_projectile_id.0 == 0,
            w.step_quantum.spec_nanos() == DEFAULT_STEP_QUANTUM_MS * 1_000_000,
            w.tick_index == 0,
    {
        let mut world = World {
            tile_grid: TileGrid::new(TileCoord(0), TileCoord(0), 0),
            cells_per_tile: 1,
            target: Target::new(Vec::new()),
            targets: Vec::new(),
            bugs: Vec::new(),
            bug_spawners: BugSpawnerRegistry::new(),
            next_bug_id: 0,
            projectiles: Vec::new(),
            next_projectile_id: ProjectileId(0),
            occupancy: OccupancyGrid::new(0, 0),
            walls: MazeWalls::new(0, 0),
            navigation_field: NavigationField::new(),
            gold: Gold(INITIAL_GOLD),
            difficulty_level: 0,
            towers: TowerRegistry::new(),
            tower_occupancy: BitGrid::new(0, 0),
            reservations: ReservationFrame::new(),
            tick_index: 0,
            step_quantum: Duration::from_millis(DEFAULT_STEP_QUANTUM_MS),
            play_mode: PlayMode::Builder,
        };
        let mut events: Vec<Event> = Vec::new();
        assert(super::geometry::spec_total_columns(10, 1) == 12);
        assert(super::geometry::spec_total_rows(10, 1) == 13);
        // 100.0 as an IEEE-754 single precision bit pattern.
        world.configure_tile_grid(TileCoord(10), TileCoord(10), 0x42c8_0000, 1, &mut events);
        world
    }
}

} // verus!
