use maze_defence::core_types::geometry::{CellCoord, CellRect, CellRectSize};
use maze_defence::core_types::messages::{Command, Event};
use maze_defence::core_types::values::{PlayMode, TowerId, TowerKind};
use maze_defence::systems::builder::{Builder, BuilderInput, PlacementPreview};

fn basic_preview_at(cell: CellCoord, placeable: bool) -> PlacementPreview {
    PlacementPreview::new(
        TowerKind::Basic,
        cell,
        CellRect::from_origin_and_size(cell, CellRectSize::new(2, 2)),
        placeable,
    )
}

/// Looks up the tower under the cursor the way an adapter does before
/// handing the answer to the builder.
fn tower_under_cursor(
    input: &BuilderInput,
    mut lookup: impl FnMut(CellCoord) -> Option<TowerId>,
) -> Option<TowerId> {
    input.cursor_cell.and_then(|cell| lookup(cell))
}

#[test]
fn confirm_emits_place_command_in_builder_mode() {
    let mut builder = Builder::default();
    let mut commands = Vec::new();

    builder.handle(
        &[Event::PlayModeChanged {
            mode: PlayMode::Builder,
        }],
        Some(basic_preview_at(CellCoord::new(2, 2), true)),
        BuilderInput {
            confirm_action: true,
            ..BuilderInput::default()
        },
        None,
        &mut commands,
    );

    assert_eq!(
        commands,
        vec![Command::PlaceTower {
            kind: TowerKind::Basic,
            origin: CellCoord::new(2, 2),
        }],
        "builder should emit a placement command when confirming a valid preview",
    );
}

#[test]
fn confirm_ignored_when_preview_not_placeable() {
    let mut builder = Builder::default();
    let mut commands = Vec::new();

    builder.handle(
        &[Event::PlayModeChanged {
            mode: PlayMode::Builder,
        }],
        Some(basic_preview_at(CellCoord::new(2, 2), false)),
        BuilderInput {
            confirm_action: true,
            ..BuilderInput::default()
        },
        None,
        &mut commands,
    );

    assert!(commands.is_empty(), "invalid preview must not emit commands");
}

#[test]
fn confirm_ignored_in_attack_mode() {
    let mut builder = Builder::default();
    let mut commands = Vec::new();

    builder.handle(
        &[],
        Some(basic_preview_at(CellCoord::new(2, 2), true)),
        BuilderInput {
            confirm_action: true,
            ..BuilderInput::default()
        },
        None,
        &mut commands,
    );

    assert!(commands.is_empty(), "system must not emit commands outside builder mode");
}

#[test]
fn remove_emits_command_when_tower_present() {
    let mut builder = Builder::default();
    let mut commands = Vec::new();
    let hovered_cell = CellCoord::new(2, 2);
    let returned_tower = TowerId::new(7);
    let mut looked_up = None;

    let input = BuilderInput {
        remove_action: true,
        cursor_cell: Some(hovered_cell),
        ..BuilderInput::default()
    };
    let hovered = tower_under_cursor(&input, |cell| {
        looked_up = Some(cell);
        Some(returned_tower)
    });
    builder.handle(
        &[Event::PlayModeChanged {
            mode: PlayMode::Builder,
        }],
        None,
        input,
        hovered,
        &mut commands,
    );

    assert_eq!(looked_up, Some(hovered_cell));
    assert_eq!(
        commands,
        vec![Command::RemoveTower {
            tower: returned_tower,
        }],
        "remove action should target the tower under the cursor",
    );
}

#[test]
fn remove_ignored_when_no_tower_present() {
    let mut builder = Builder::default();
    let mut commands = Vec::new();

    let input = BuilderInput {
        remove_action: true,
        cursor_cell: Some(CellCoord::new(1, 1)),
        ..BuilderInput::default()
    };
    let hovered = tower_under_cursor(&input, |_| None);
    builder.handle(
        &[Event::PlayModeChanged {
            mode: PlayMode::Builder,
        }],
        None,
        input,
        hovered,
        &mut commands,
    );

    assert!(commands.is_empty(), "no tower under cursor, nothing to remove");
}

#[test]
fn remove_ignored_in_attack_mode() {
    let mut builder = Builder::default();
    let mut commands = Vec::new();

    let input = BuilderInput {
        remove_action: true,
        cursor_cell: Some(CellCoord::new(1, 1)),
        ..BuilderInput::default()
    };
    let hovered = tower_under_cursor(&input, |_| Some(TowerId::new(3)));
    builder.handle(&[], None, input, hovered, &mut commands);

    assert!(commands.is_empty(), "system must not emit removal commands in attack mode");
}

#[test]
fn builder_follows_the_last_mode_change() {
    let mut builder = Builder::new();
    let mut commands = Vec::new();
    builder.handle(
        &[
            Event::PlayModeChanged { mode: PlayMode::Builder },
            Event::PlayModeChanged { mode: PlayMode::Attack },
        ],
        Some(basic_preview_at(CellCoord::new(0, 0), true)),
        BuilderInput::new(true, false, None),
        None,
        &mut commands,
    );
    assert!(commands.is_empty());
    assert_eq!(builder.play_mode, PlayMode::Attack);
}
