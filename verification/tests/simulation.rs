use maze_defence::core_types::geometry::{CellCoord, CellRect};
use maze_defence::core_types::messages::{Command, Event};
use maze_defence::core_types::time::Duration;
use maze_defence::core_types::values::{PlacementError, PlayMode, RemovalError, TowerId, TowerKind};
use maze_defence::simulation::Simulation;
use maze_defence::systems::builder::{BuilderInput, PlacementPreview};
use maze_defence::systems::feedback::{TowerFeedback, TowerInteractionFeedback};
use maze_defence::transfer::snapshot::TowerLayoutSnapshot;
use maze_defence::world::query;
use maze_defence::world::towers::footprint_for;

fn simulation() -> Simulation {
    let mut simulation =
        Simulation::new(6, 6, 1.0f32.to_bits(), 1, Duration::from_millis(250), Duration::from_millis(1000))
            .expect("grid fits");
    simulation
        .process_pending_events(None, BuilderInput::default(), 16)
        .expect("opening pass applies");
    simulation
}

#[test]
fn new_simulation_leaves_the_opening_events_pending() {
    let simulation =
        Simulation::new(6, 6, 1.0f32.to_bits(), 1, Duration::from_millis(250), Duration::from_millis(1000))
            .expect("grid fits");
    let mode = query::play_mode(&simulation.world);
    assert_eq!(simulation.pending_events.last(), Some(&Event::PlayModeChanged { mode }));
    assert_eq!(query::tile_grid(&simulation.world).columns.0, 6);
    assert!(simulation.queued_commands.is_empty());
    assert!(!simulation.auto_spawn_enabled);
}

#[test]
fn builder_input_places_a_tower_during_the_frame() {
    let mut simulation = simulation();
    simulation.queued_commands.push(Command::SetPlayMode { mode: PlayMode::Builder });
    simulation.advance(Duration::from_millis(16), None, BuilderInput::default(), 16).expect("frame applies");
    assert_eq!(query::play_mode(&simulation.world), PlayMode::Builder);

    let origin = CellCoord::new(2, 2);
    let region = CellRect::from_origin_and_size(origin, footprint_for(TowerKind::Basic));
    let placeable = query::region_is_placeable(&simulation.world, region);
    assert!(placeable);
    let preview = PlacementPreview::new(TowerKind::Basic, origin, region, placeable);
    simulation
        .advance(Duration::from_millis(16), Some(preview), BuilderInput::new(true, false, Some(origin)), 16)
        .expect("frame applies");
    assert_eq!(query::towers(&simulation.world).iter().len(), 1);
    assert_eq!(query::tower_at(&simulation.world, origin), Some(TowerId(0)));

    simulation
        .advance(Duration::from_millis(16), None, BuilderInput::new(false, true, Some(CellCoord::new(3, 3))), 16)
        .expect("frame applies");
    assert_eq!(query::towers(&simulation.world).iter().len(), 0);
}

#[test]
fn automatic_spawning_releases_bugs_in_attack_mode() {
    let mut simulation = simulation();
    simulation.queued_commands.push(Command::SetPlayMode { mode: PlayMode::Attack });
    simulation.auto_spawn_enabled = true;
    for _ in 0..3 {
        simulation.advance(Duration::from_millis(500), None, BuilderInput::default(), 16).expect("frame applies");
    }
    assert!(!query::bug_view(&simulation.world).iter().is_empty());
}

#[test]
fn tower_feedback_remembers_rejections_until_success() {
    let mut feedback = TowerFeedback::new();
    feedback.record_tower_feedback(&[Event::TowerPlacementRejected {
        kind: TowerKind::Basic,
        origin: CellCoord::new(1, 1),
        reason: PlacementError::Occupied,
    }]);
    assert_eq!(
        feedback.feedback,
        Some(TowerInteractionFeedback::PlacementRejected {
            kind: TowerKind::Basic,
            origin: CellCoord::new(1, 1),
            reason: PlacementError::Occupied,
        })
    );
    feedback.record_tower_feedback(&[Event::TowerRemovalRejected { tower: TowerId(3), reason: RemovalError::MissingTower }]);
    assert_eq!(
        feedback.feedback,
        Some(TowerInteractionFeedback::RemovalRejected { tower: TowerId(3), reason: RemovalError::MissingTower })
    );
    assert!(feedback.last_placement_rejection.is_some());
    feedback.record_tower_feedback(&[Event::TowerPlaced {
        tower: TowerId(4),
        kind: TowerKind::Basic,
        region: CellRect::from_origin_and_size(CellCoord::new(0, 0), footprint_for(TowerKind::Basic)),
    }]);
    assert!(feedback.last_placement_rejection.is_none());
    assert!(feedback.feedback.is_some());
    feedback.record_tower_feedback(&[Event::TowerRemoved {
        tower: TowerId(4),
        region: CellRect::from_origin_and_size(CellCoord::new(0, 0), footprint_for(TowerKind::Basic)),
    }]);
    assert!(feedback.feedback.is_none());
    assert!(feedback.last_removal_rejection.is_none());
}

#[test]
fn restoring_a_layout_through_the_simulation_bypasses_gold_costs() {
    let snapshot = TowerLayoutSnapshot::decode("maze:v2:10x10:BAAAyEJDABMlAA8jAAklAA0ZABEdABUfABkjAB8lAB8hABsdABcZABMXAA8TAAkVAAkRAA0NABENABURABkTAB0XAB8RACMVACMZAB8dABsNABcLABMHAA8HAAsHAAcLAAUBAAkBAA0BABEBABUBABkBAB0BACEBACUBACUFACUJACUNACURACUdACUhACUlACEJACEFABsJABcHAB8NAB0FAAcHAA0dAAEBAAEFAAEJAAENAAEVAAkdAAEZAAEdAAchAAcZAAMRAAUlAAEj")
        .expect("snapshot should decode");

    let mut simulation = Simulation::new(
        snapshot.columns,
        snapshot.rows,
        snapshot.tile_length_bits,
        snapshot.cells_per_tile,
        Duration::from_millis(250),
        Duration::from_millis(1_000),
    )
    .expect("grid fits");
    simulation
        .process_pending_events(None, BuilderInput::default(), 64)
        .expect("opening pass applies");

    let initial_gold = query::gold(&simulation.world);
    let required_gold: u32 = snapshot.towers.iter().map(|tower| tower.kind.build_cost().get()).sum();
    assert!(required_gold > initial_gold.get());

    simulation.restore_layout(&snapshot, true, 64).expect("layout restoration should succeed");

    let restored = query::towers(&simulation.world);
    assert_eq!(restored.iter().len(), snapshot.towers.len());
    assert_eq!(query::gold(&simulation.world), initial_gold);
}
