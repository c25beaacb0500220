//! Restoring a layout into a running world: checking that it fits the
//! world's grid and planning the commands that rebuild its towers.

use vstd::prelude::*;
use crate::core_types::messages::Command;
use crate::core_types::values::PlayMode;
use crate::world::state::World;
use crate::world::towers::TowerState;
use super::codec::TowerLayoutTower;
use super::text::{chars_to_string, decimal_chars, push_decimal, push_decimal_u64, push_text};
use super::snapshot::TowerLayoutSnapshot;

verus! {

/// Why a layout cannot be restored into the world.
#[derive(Clone, Copy, Debug, PartialEq, Eq, Structural)]
pub enum LayoutImportError {
    /// The layout has another number of tile columns than the world.
    ColumnMismatch { expected: u32, observed: u32 },
    /// The layout has another number of tile rows than the world.
    RowMismatch { expected: u32, observed: u32 },
    /// The layout subdivides tiles into another number of cells.
    CellsPerTileMismatch { expected: u32, observed: u32 },
    /// The layout's tile length differs from the world's beyond tolerance
    /// (bit patterns of the two lengths).
    TileLengthMismatch { expected_bits: u32, observed_bits: u32 },
    /// After the import the world holds another number of towers.
    RestorationMismatch { expected: usize, observed: usize },
}

impl LayoutImportError {
    /// The human-readable message describing the error; none for a tile
    /// length mismatch, whose lengths are floats that the caller renders.
    pub fn message(&self) -> (r: Option<String>)
        ensures
            match *self {
                LayoutImportError::ColumnMismatch { expected, observed } => r matches Some(m) && m@ == "Layout uses "@
                    + decimal_chars(observed as nat) + " columns but the current map expects "@ + decimal_chars(
                    expected as nat,
                ) + "."@,
                LayoutImportError::RowMismatch { expected, observed } => r matches Some(m) && m@ == "Layout uses "@
                    + decimal_chars(observed as nat) + " rows but the current map expects "@ + decimal_chars(
                    expected as nat,
                ) + "."@,
                LayoutImportError::CellsPerTileMismatch { expected, observed } => r matches Some(m) && m@
                    == "Layout was authored with "@ + decimal_chars(observed as nat)
                    + " cells per tile but the map is configured for "@ + decimal_chars(expected as nat) + "."@,
                LayoutImportError::TileLengthMismatch { .. } => r is None,
                LayoutImportError::RestorationMismatch { expected, observed } => r matches Some(m) && m@ == "Restored "@
                    + decimal_chars(observed as nat) + " towers but the layout specified "@ + decimal_chars(
                    expected as nat,
                ) + "."@,
            },
    {
        let mut out: Vec<char> = Vec::new();
        match *self {
            LayoutImportError::ColumnMismatch { expected, observed } => {
                push_text("Layout uses ", &mut out);
                push_decimal(observed, &mut out);
                push_text(" columns but the current map expects ", &mut out);
                push_decimal(expected, &mut out);
                push_text(".", &mut out);
            },
            LayoutImportError::RowMismatch { expected, observed } => {
                push_text("Layout uses ", &mut out);
                push_decimal(observed, &mut out);
                push_text(" rows but the current map expects ", &mut out);
                push_decimal(expected, &mut out);
                push_text(".", &mut out);
            },
            LayoutImportError::CellsPerTileMismatch { expected, observed } => {
                push_text("Layout was authored with ", &mut out);
                push_decimal(observed, &mut out);
                push_text(" cells per tile but the map is configured for ", &mut out);
                push_decimal(expected, &mut out);
                push_text(".", &mut out);
            },
            LayoutImportError::TileLengthMismatch { .. } => {
                return None;
            },
            LayoutImportError::RestorationMismatch { expected, observed } => {
                push_text("Restored ", &mut out);
                push_decimal_u64(observed as u64, &mut out);
                push_text(" towers but the layout specified ", &mut out);
                push_decimal_u64(expected as u64, &mut out);
                push_text(".", &mut out);
            },
        }
        proof {
            assert(out@ =~= Seq::<char>::empty() + out@);
        }
        Some(chars_to_string(out.as_slice()))
    }
}

/// The cells per tile the world reports (at least one).
pub open spec fn reported_cells_per_tile(world: World) -> u32 {
    if world.cells_per_tile == 0 { 1 } else { world.cells_per_tile }
}

/// A command removing each of `towers`, in order.
pub open spec fn removal_commands(towers: Seq<TowerState>) -> Seq<Command> {
    towers.map_values(|t: TowerState| Command::RemoveTower { tower: t.id })
}

/// A command importing each of `towers`, in order.
pub open spec fn import_tower_commands(towers: Seq<TowerLayoutTower>) -> Seq<Command> {
    towers.map_values(|t: TowerLayoutTower| Command::ImportTower { kind: t.kind, origin: t.origin })
}

/// The commands that rebuild `layout` in `world`: switch to builder mode if
/// needed, remove every tower, import the layout's towers, and switch back.
pub open spec fn import_plan(world: World, layout: Seq<TowerLayoutTower>) -> Seq<Command> {
    let enter = if world.play_mode != PlayMode::Builder {
        seq![Command::SetPlayMode { mode: PlayMode::Builder }]
    } else {
        Seq::empty()
    };
    let leave = if world.play_mode != PlayMode::Builder {
        seq![Command::SetPlayMode { mode: world.play_mode }]
    } else {
        Seq::empty()
    };
    enter + removal_commands(world.towers.entries@) + import_tower_commands(layout) + leave
}

/// What checking `snapshot` against `world` gives, the tile length having
/// been compared already (`tile_length_matches`): the first mismatch among
/// columns, rows, cells per tile and tile length, else the import plan.
pub open spec fn import_outcome(
    world: World,
    snapshot: TowerLayoutSnapshot,
    tile_length_matches: bool,
) -> Result<Seq<Command>, LayoutImportError> {
    if world.tile_grid.columns.0 != snapshot.columns {
        Err(LayoutImportError::ColumnMismatch { expected: world.tile_grid.columns.0, observed: snapshot.columns })
    } else if world.tile_grid.rows.0 != snapshot.rows {
        Err(LayoutImportError::RowMismatch { expected: world.tile_grid.rows.0, observed: snapshot.rows })
    } else if reported_cells_per_tile(world) != snapshot.cells_per_tile {
        Err(
            LayoutImportError::CellsPerTileMismatch {
                expected: reported_cells_per_tile(world),
                observed: snapshot.cells_per_tile,
            },
        )
    } else if !tile_length_matches {
        Err(
            LayoutImportError::TileLengthMismatch {
                expected_bits: world.tile_grid.tile_length_bits,
                observed_bits: snapshot.tile_length_bits,
            },
        )
    } else {
        Ok(import_plan(world, snapshot.towers@))
    }
}

/// Checks that `snapshot` fits `world` and plans the commands that restore
/// it (see [`import_outcome`]). Whether the tile lengths agree within
/// tolerance is decided by the caller and passed as `tile_length_matches`.
pub fn layout_import_commands(
    world: &World,
    snapshot: &TowerLayoutSnapshot,
    tile_length_matches: bool,
) -> (r: Result<Vec<Command>, LayoutImportError>)
    ensures
        match import_outcome(*world, *snapshot, tile_length_matches) {
            Ok(plan) => r is Ok && r->Ok_0@ == plan,
            Err(e) => r is Err && r->Err_0 == e,
        },
{
    let columns = world.tile_grid.columns.0;
    if columns != snapshot.columns {
        return Err(LayoutImportError::ColumnMismatch { expected: columns, observed: snapshot.columns });
    }
    let rows = world.tile_grid.rows.0;
    if rows != snapshot.rows {
        return Err(LayoutImportError::RowMismatch { expected: rows, observed: snapshot.rows });
    }
    let cells_per_tile: u32 = if world.cells_per_tile == 0 { 1 } else { world.cells_per_tile };
    if cells_per_tile != snapshot.cells_per_tile {
        return Err(
            LayoutImportError::CellsPerTileMismatch { expected: cells_per_tile, observed: snapshot.cells_per_tile },
        );
    }
    if !tile_length_matches {
        return Err(
            LayoutImportError::TileLengthMismatch {
                expected_bits: world.tile_grid.tile_length_bits,
                observed_bits: snapshot.tile_length_bits,
            },
        );
    }
    let current_mode = world.play_mode;
    let mut commands: Vec<Command> = Vec::new();
    if current_mode != PlayMode::Builder {
        commands.push(Command::SetPlayMode { mode: PlayMode::Builder });
    }
    let ghost enter = commands@;
    let towers = world.towers.iter();
    let mut i: usize = 0;
    while i < towers.len()
        invariant
            i <= towers@.len(),
            towers@ == world.towers.entries@,
            commands@ == enter + removal_commands(towers@.take(i as int)),
        decreases towers@.len() - i,
    {
        commands.push(Command::RemoveTower { tower: towers[i].id });
        i = i + 1;
        assert(commands@ =~= enter + removal_commands(towers@.take(i as int)));
    }
    assert(towers@.take(towers@.len() as int) =~= towers@);
    let ghost removed = commands@;
    let layout = snapshot.towers.as_slice();
    let mut j: usize = 0;
    while j < layout.len()
        invariant
            j <= layout@.len(),
            layout@ == snapshot.towers@,
            commands@ == removed + import_tower_commands(layout@.take(j as int)),
        decreases layout@.len() - j,
    {
        commands.push(Command::ImportTower { kind: layout[j].kind, origin: layout[j].origin });
        j = j + 1;
        assert(commands@ =~= removed + import_tower_commands(layout@.take(j as int)));
    }
    assert(layout@.take(layout@.len() as int) =~= layout@);
    if current_mode != PlayMode::Builder {
        commands.push(Command::SetPlayMode { mode: current_mode });
    }
    assert(commands@ =~= import_plan(*world, snapshot.towers@));
    Ok(commands)
}

/// Confirms that the import left as many towers as the layout holds.
pub fn check_restoration(expected: usize, observed: usize) -> (r: Result<(), LayoutImportError>)
    ensures
        expected == observed ==> r is Ok,
        expected != observed ==> r == Err::<(), LayoutImportError>(
            LayoutImportError::RestorationMismatch { expected, observed },
        ),
{
    if expected != observed {
        Err(LayoutImportError::RestorationMismatch { expected, observed })
    } else {
        Ok(())
    }
}

/// The layout tower recording tower `t`.
pub open spec fn layout_tower_of(t: TowerState) -> TowerLayoutTower {
    TowerLayoutTower { kind: t.kind, origin: t.region.origin }
}

/// Captures the world's grid settings and towers, in identifier order, as a layout.
pub fn capture_layout_snapshot(world: &World) -> (s: TowerLayoutSnapshot)
    ensures
        s.columns == world.tile_grid.columns.0,
        s.rows == world.tile_grid.rows.0,
        s.tile_length_bits == world.tile_grid.tile_length_bits,
        s.cells_per_tile == reported_cells_per_tile(*world),
        s.towers@ == world.towers.entries@.map_values(|t: TowerState| layout_tower_of(t)),
{
    let entries = world.towers.iter();
    let mut towers: Vec<TowerLayoutTower> = Vec::new();
    let mut i: usize = 0;
    while i < entries.len()
        invariant
            i <= entries@.len(),
            entries@ == world.towers.entries@,
            towers@ == entries@.take(i as int).map_values(|t: TowerState| layout_tower_of(t)),
        decreases entries@.len() - i,
    {
        towers.push(TowerLayoutTower { kind: entries[i].kind, origin: entries[i].region.origin });
        i = i + 1;
        assert(towers@ =~= entries@.take(i as int).map_values(|t: TowerState| layout_tower_of(t)));
    }
    assert(entries@.take(entries@.len() as int) =~= entries@);
    TowerLayoutSnapshot {
        columns: world.tile_grid.columns.0,
        rows: world.tile_grid.rows.0,
        tile_length_bits: world.tile_grid.tile_length_bits,
        cells_per_tile: if world.cells_per_tile == 0 { 1 } else { world.cells_per_tile },
        towers,
    }
}

} // verus!
