use std::collections::hash_map::DefaultHasher;
use std::hash::{Hash, Hasher};

use maze_defence::core_types::geometry::{CellCoord, CellRect};
use maze_defence::core_types::fields::NavigationFieldView;
use maze_defence::core_types::messages::{Command, Event};
use maze_defence::core_types::time::Duration;
use maze_defence::core_types::values::{
    BugColor, BugId, Gold, Health, PlayMode, TileCoord, TowerId, TowerKind,
};
use maze_defence::core_types::views::BugSnapshot;
use maze_defence::systems::movement::Movement;
use maze_defence::world::apply::apply;
use maze_defence::world::query;
use maze_defence::world::state::World;

const DEFAULT_STEP_MS: u32 = 250;
const FAST_STEP_MS: u32 = 150;
const SLOW_STEP_MS: u32 = 450;

#[test]
fn movement_replay_scripts_are_deterministic() {
    for commands in [
        baseline_commands(),
        dense_corridor_commands(),
        side_hallway_diversion_commands(),
        stall_regression_commands(),
        mixed_cadence_commands(),
    ] {
        let first = replay(commands.clone());
        let second = replay(commands);
        assert_eq!(first, second, "replay diverged between runs");
        assert_eq!(first.fingerprint(), second.fingerprint());
        assert!(first.events.iter().any(|event| matches!(event, EventRecord::BugAdvanced { .. })));
    }
}

fn replay(commands: Vec<Command>) -> ReplayOutcome {
    let mut world = World::new();
    let mut movement = Movement::default();
    let mut log = Vec::new();

    for command in commands {
        let mut events = Vec::new();
        apply(&mut world, command, &mut events);
        record_events(&events, &mut log);
        process_movement(&mut world, &mut movement, events, &mut log);
    }

    let bugs = query::bug_view(&world).into_vec().into_iter().map(BugState::from).collect();

    let navigation = query::navigation_field(&world);
    let navigation_fingerprint = navigation_fingerprint(&navigation);

    ReplayOutcome { bugs, events: log, navigation_fingerprint }
}

fn process_movement(world: &mut World, movement: &mut Movement, pending_events: Vec<Event>, log: &mut Vec<EventRecord>) {
    let mut events = pending_events;

    loop {
        if events.is_empty() {
            break;
        }

        let bug_view = query::bug_view(world);
        let occupancy_view = query::occupancy_view(world);
        let mut commands = Vec::new();
        let target_cells = query::target_cells(world);
        let navigation_view = query::navigation_field(world);
        let reservation_ledger = query::reservation_ledger(world);
        let blocked = query::blocked_cells(world);
        movement.handle(
            &events,
            &bug_view,
            &occupancy_view,
            &navigation_view,
            &reservation_ledger,
            &target_cells,
            &blocked,
            &mut commands,
        );

        if commands.is_empty() {
            break;
        }

        events.clear();
        for command in commands {
            let mut generated_events = Vec::new();
            apply(world, command, &mut generated_events);
            record_events(&generated_events, log);
            events.extend(generated_events);
        }
    }
}

fn record_events(events: &[Event], log: &mut Vec<EventRecord>) {
    log.extend(events.iter().map(EventRecord::from));
}

fn grid(columns: u32, rows: u32) -> Command {
    Command::ConfigureTileGrid {
        columns: TileCoord::new(columns),
        rows: TileCoord::new(rows),
        tile_length_bits: 1.0f32.to_bits(),
        cells_per_tile: 1,
    }
}

fn baseline_commands() -> Vec<Command> {
    vec![
        grid(5, 4),
        Command::SetPlayMode { mode: PlayMode::Attack },
        Command::SpawnBug {
            spawner: CellCoord::new(0, 0),
            color: BugColor::from_rgb(0x2f, 0x95, 0x32),
            health: Health::new(3),
            step_ms: DEFAULT_STEP_MS,
        },
        Command::Tick { dt: Duration::from_millis(500) },
        Command::Tick { dt: Duration::from_millis(500) },
        Command::Tick { dt: Duration::from_secs(1) },
        Command::Tick { dt: Duration::from_secs(1) },
        Command::Tick { dt: Duration::from_secs(1) },
    ]
}

fn dense_corridor_commands() -> Vec<Command> {
    let mut commands = vec![grid(1, 8), Command::SetPlayMode { mode: PlayMode::Attack }];

    let palette = [
        (0x2f, 0x70, 0x32),
        (0x2f, 0x78, 0x32),
        (0x2f, 0x80, 0x32),
        (0x2f, 0x88, 0x32),
        (0x2f, 0x90, 0x32),
        (0x2f, 0x98, 0x32),
    ];

    for &(red, green, blue) in &palette {
        commands.push(Command::SpawnBug {
            spawner: CellCoord::new(0, 0),
            color: BugColor::from_rgb(red, green, blue),
            health: Health::new(3),
            step_ms: DEFAULT_STEP_MS,
        });
        commands.push(Command::Tick { dt: Duration::from_millis(250) });
    }

    for _ in 0..24 {
        commands.push(Command::Tick { dt: Duration::from_millis(250) });
    }

    commands
}

fn side_hallway_diversion_commands() -> Vec<Command> {
    let mut commands = vec![
        grid(8, 6),
        Command::SetPlayMode { mode: PlayMode::Builder },
        Command::PlaceTower { kind: TowerKind::Basic, origin: CellCoord::new(2, 2) },
        Command::PlaceTower { kind: TowerKind::Basic, origin: CellCoord::new(6, 3) },
        Command::SetPlayMode { mode: PlayMode::Attack },
    ];

    let palette = [
        (0x48, 0x70, 0x90),
        (0x48, 0x78, 0x90),
        (0x48, 0x80, 0x90),
        (0x48, 0x88, 0x90),
        (0x48, 0x90, 0x90),
        (0x48, 0x98, 0x90),
    ];

    for &(red, green, blue) in &palette {
        commands.push(Command::SpawnBug {
            spawner: CellCoord::new(4, 0),
            color: BugColor::from_rgb(red, green, blue),
            health: Health::new(5),
            step_ms: DEFAULT_STEP_MS,
        });
        commands.push(Command::Tick { dt: Duration::from_millis(250) });
    }

    for _ in 0..48 {
        commands.push(Command::Tick { dt: Duration::from_millis(250) });
    }

    commands
}

fn stall_regression_commands() -> Vec<Command> {
    let mut commands = vec![
        grid(1, 6),
        Command::SetPlayMode { mode: PlayMode::Attack },
        Command::SpawnBug {
            spawner: CellCoord::new(0, 0),
            color: BugColor::from_rgb(0x9a, 0x4c, 0x2f),
            health: Health::new(3),
            step_ms: DEFAULT_STEP_MS,
        },
    ];

    for _ in 0..6 {
        commands.push(Command::Tick { dt: Duration::from_millis(250) });
    }

    commands.push(Command::SpawnBug {
        spawner: CellCoord::new(0, 0),
        color: BugColor::from_rgb(0x2f, 0x8c, 0xc0),
        health: Health::new(3),
        step_ms: DEFAULT_STEP_MS,
    });

    for _ in 0..18 {
        commands.push(Command::Tick { dt: Duration::from_millis(250) });
    }

    commands
}

fn mixed_cadence_commands() -> Vec<Command> {
    let mut commands = vec![
        grid(1, 8),
        Command::SetPlayMode { mode: PlayMode::Attack },
        Command::SpawnBug {
            spawner: CellCoord::new(0, 0),
            color: BugColor::from_rgb(0xf2, 0x69, 0x35),
            health: Health::new(4),
            step_ms: FAST_STEP_MS,
        },
        Command::Tick { dt: Duration::from_millis(100) },
        Command::Tick { dt: Duration::from_millis(100) },
        Command::Tick { dt: Duration::from_millis(100) },
        Command::SpawnBug {
            spawner: CellCoord::new(0, 0),
            color: BugColor::from_rgb(0x2f, 0x70, 0xc5),
            health: Health::new(5),
            step_ms: SLOW_STEP_MS,
        },
    ];

    for (index, dt) in [100u64, 150, 200, 100, 300, 100, 250, 100, 150, 200, 100, 300].into_iter().enumerate() {
        if index % 3 == 0 {
            commands.push(Command::Tick { dt: Duration::from_millis(50) });
        }

        commands.push(Command::Tick { dt: Duration::from_millis(dt) });
    }

    commands
}

#[derive(Clone, Debug, PartialEq, Eq, Hash)]
struct ReplayOutcome {
    bugs: Vec<BugState>,
    events: Vec<EventRecord>,
    navigation_fingerprint: u64,
}

fn navigation_fingerprint(view: &NavigationFieldView) -> u64 {
    let mut hasher = DefaultHasher::new();
    view.width().hash(&mut hasher);
    view.height().hash(&mut hasher);
    view.cells().hash(&mut hasher);
    hasher.finish()
}

impl ReplayOutcome {
    fn fingerprint(&self) -> u64 {
        let mut hasher = DefaultHasher::new();
        self.hash(&mut hasher);
        hasher.finish()
    }
}

#[derive(Clone, Debug, PartialEq, Eq, Hash)]
struct BugState {
    id: BugId,
    cell: CellCoord,
    step_ms: u32,
    accum_ms: u32,
    ready_for_step: bool,
    color: (u8, u8, u8),
    max_health: Health,
    health: Health,
}

impl From<BugSnapshot> for BugState {
    fn from(snapshot: BugSnapshot) -> Self {
        Self {
            id: snapshot.id,
            cell: snapshot.cell,
            step_ms: snapshot.step_ms,
            accum_ms: snapshot.accum_ms,
            ready_for_step: snapshot.ready_for_step,
            color: (snapshot.color.red, snapshot.color.green, snapshot.color.blue),
            max_health: snapshot.max_health,
            health: snapshot.health,
        }
    }
}

/// The play mode as its derived hash sees it: the variant's discriminant.
#[derive(Clone, Copy, Debug, PartialEq, Eq, Hash)]
enum ModeRecord {
    Attack,
    Builder,
}

impl From<PlayMode> for ModeRecord {
    fn from(mode: PlayMode) -> Self {
        match mode {
            PlayMode::Attack => ModeRecord::Attack,
            PlayMode::Builder => ModeRecord::Builder,
        }
    }
}

/// Event records in the variant order the fingerprints were taken with;
/// variants for events this world never emits keep their place.
#[derive(Clone, Debug, PartialEq, Eq, Hash)]
enum EventRecord {
    TimeAdvanced { dt_micros: u128 },
    BugAdvanced { bug_id: BugId, from: CellCoord, to: CellCoord },
    BugExited { bug_id: BugId, cell: CellCoord },
    PlayModeChanged { mode: ModeRecord },
    BugSpawned { bug_id: BugId, cell: CellCoord, color: (u8, u8, u8), health: Health },
    PendingWaveDifficultyChanged { pending: u32 },
    PressureConfigChanged { species_table_version: u32 },
    WaveStarted { wave: u32 },
    TowerPlaced { tower: TowerId, kind: TowerKind, region: CellRect },
    GoldChanged { amount: Gold },
    RoundLost { bug: BugId },
}

impl From<&Event> for EventRecord {
    fn from(event: &Event) -> Self {
        match event {
            Event::TimeAdvanced { dt } => Self::TimeAdvanced { dt_micros: dt.as_millis() * 1000 },
            Event::BugAdvanced { bug_id, from, to } => Self::BugAdvanced { bug_id: *bug_id, from: *from, to: *to },
            Event::BugExited { bug_id, cell } => Self::BugExited { bug_id: *bug_id, cell: *cell },
            Event::PlayModeChanged { mode } => Self::PlayModeChanged { mode: ModeRecord::from(*mode) },
            Event::BugSpawned { bug_id, cell, color, health } => Self::BugSpawned {
                bug_id: *bug_id,
                cell: *cell,
                color: (color.red, color.green, color.blue),
                health: *health,
            },
            Event::TowerPlaced { tower, kind, region } => Self::TowerPlaced { tower: *tower, kind: *kind, region: *region },
            Event::GoldChanged { amount } => Self::GoldChanged { amount: *amount },
            Event::RoundLost { bug } => Self::RoundLost { bug: *bug },
            other => unreachable!("unexpected event in movement replay: {other:?}"),
        }
    }
}
