//! Builder-mode system: placement and removal requests from player input.

use vstd::prelude::*;
use crate::core_types::geometry::{CellCoord, CellRect};
use crate::core_types::messages::{Command, Event};
use crate::core_types::values::{PlayMode, TowerId, TowerKind};

verus! {

/// Declarative placement preview describing a potential tower construction.
#[derive(Clone, Copy, Debug, PartialEq, Eq, Structural)]
pub struct PlacementPreview {
    /// Kind of tower proposed for placement.
    pub kind: TowerKind,
    /// Origin cell anchoring the proposed tower footprint.
    pub origin: CellCoord,
    /// Region of cells that would be occupied by the tower if placed.
    pub region: CellRect,
    /// Whether the preview represents a valid placement location.
    pub placeable: bool,
}

impl PlacementPreview {
    /// Creates a new placement preview descriptor.
    pub fn new(kind: TowerKind, origin: CellCoord, region: CellRect, placeable: bool) -> (p: Self)
        ensures
            p == (PlacementPreview { kind, origin, region, placeable }),
    {
        PlacementPreview { kind, origin, region, placeable }
    }
}

/// Input snapshot distilled from a frame's player input.
#[derive(Clone, Copy, Debug, PartialEq, Eq, Structural)]
pub struct BuilderInput {
    /// Whether the player confirmed a placement on this frame.
    pub confirm_action: bool,
    /// Whether the player requested tower removal on this frame.
    pub remove_action: bool,
    /// Cell currently hovered by the cursor in builder mode.
    pub cursor_cell: Option<CellCoord>,
}

impl BuilderInput {
    /// Creates a new input descriptor with explicit field values.
    pub fn new(confirm_action: bool, remove_action: bool, cursor_cell: Option<CellCoord>) -> (i: Self)
        ensures
            i == (BuilderInput { confirm_action, remove_action, cursor_cell }),
    {
        BuilderInput { confirm_action, remove_action, cursor_cell }
    }
}

impl Default for BuilderInput {
    fn default() -> (i: Self)
        ensures
            i == (BuilderInput { confirm_action: false, remove_action: false, cursor_cell: None }),
    {
        BuilderInput { confirm_action: false, remove_action: false, cursor_cell: None }
    }
}

/// The play mode after `events`, starting from `mode`: the last announced change wins.
pub open spec fn mode_after(mode: PlayMode, events: Seq<Event>) -> PlayMode
    decreases events.len(),
{
    if events.len() == 0 {
        mode
    } else {
        match events.last() {
            Event::PlayModeChanged { mode: m } => m,
            _ => mode_after(mode, events.drop_last()),
        }
    }
}

/// Follows the play-mode changes announced by `events`.
pub fn track_play_mode(mode: PlayMode, events: &[Event]) -> (m: PlayMode)
    ensures
        m == mode_after(mode, events@),
{
    let mut current = mode;
    let mut i: usize = 0;
    assert(events@.take(0) =~= Seq::<Event>::empty());
    while i < events.len()
        invariant
            i <= events@.len(),
            current == mode_after(mode, events@.take(i as int)),
        decreases events@.len() - i,
    {
        proof {
            assert(events@.take(i + 1).drop_last() =~= events@.take(i as int));
            assert(events@.take(i + 1).last() == events@[i as int]);
        }
        match &events[i] {
            Event::PlayModeChanged { mode: m } => {
                current = *m;
            },
            _ => {},
        }
        i = i + 1;
    }
    assert(events@.take(events@.len() as int) =~= events@);
    current
}

/// Builder-mode system that turns previews and input into placement commands.
#[derive(Debug, Clone)]
pub struct Builder {
    pub play_mode: PlayMode,
}

impl Default for Builder {
    fn default() -> (b: Self)
        ensures
            b.play_mode == PlayMode::Attack,
    {
        Builder { play_mode: PlayMode::Attack }
    }
}

impl Builder {
    /// Creates a new builder system, assuming attack mode until told otherwise.
    pub fn new() -> (b: Self)
        ensures
            b.play_mode == PlayMode::Attack,
    {
        Builder { play_mode: PlayMode::Attack }
    }

    /// Follows the play mode announced by `events`; in builder mode, a
    /// confirmed placeable preview becomes `PlaceTower`, and a removal request
    /// over a tower becomes `RemoveTower`. `hovered_tower` is the tower under
    /// the cursor cell, as the world's `tower_at` query reports it.
    pub fn handle(
        &mut self,
        events: &[Event],
        preview: Option<PlacementPreview>,
        input: BuilderInput,
        hovered_tower: Option<TowerId>,
        out: &mut Vec<Command>,
    )
        ensures
            final(self).play_mode == mode_after(old(self).play_mode, events@),
            final(out)@ == old(out)@ + if final(self).play_mode != PlayMode::Builder {
                Seq::<Command>::empty()
            } else {
                (if input.confirm_action && preview is Some && preview->0.placeable {
                    seq![Command::PlaceTower { kind: preview->0.kind, origin: preview->0.origin }]
                } else {
                    Seq::<Command>::empty()
                }) + (if input.remove_action && input.cursor_cell is Some && hovered_tower is Some {
                    seq![Command::RemoveTower { tower: hovered_tower->0 }]
                } else {
                    Seq::<Command>::empty()
                })
            },
    {
        self.play_mode = track_play_mode(self.play_mode, events);
        let ghost start = out@;
        if self.play_mode != PlayMode::Builder {
            assert(out@ =~= start + Seq::<Command>::empty());
            return;
        }
        if input.confirm_action {
            if let Some(p) = preview {
                if p.placeable {
                    out.push(Command::PlaceTower { kind: p.kind, origin: p.origin });
                }
            }
        }
        let ghost middle = out@;
        if input.remove_action {
            if let Some(_cell) = input.cursor_cell {
                if let Some(tower) = hovered_tower {
                    out.push(Command::RemoveTower { tower });
                }
            }
        }
        proof {
            assert(out@ =~= start + (middle.subrange(start.len() as int, middle.len() as int)) + out@.subrange(
                middle.len() as int,
                out@.len() as int,
            ));
        }
    }
}

} // verus!
