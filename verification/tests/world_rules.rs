use maze_defence::core_types::geometry::{CellCoord, CellRect, CellRectSize};
use maze_defence::core_types::messages::{Command, Event};
use maze_defence::core_types::time::Duration;
use maze_defence::core_types::values::{
    BugColor, BugId, Damage, Gold, Health, ProjectileId, ProjectileRejection, PlacementError, PlayMode, RemovalError, TileCoord, TowerId, TowerKind,
};
use maze_defence::systems::bootstrap::Bootstrap;
use maze_defence::world::analytics::{compute_tower_dps, layout_snapshot, tower_view};
use maze_defence::world::apply::{apply, command_fits_world};
use maze_defence::world::geometry::{
    exit_columns_for_tile_grid, exit_row_for_tile_grid, total_cell_columns, total_cell_rows,
    visible_wall_row_for_tile_grid, walkway_row_for_tile_grid,
};
use maze_defence::world::query;
use maze_defence::world::state::World;

fn world_with_grid(columns: u32, rows: u32, cells_per_tile: u32) -> World {
    let mut world = World::new();
    let mut events = Vec::new();
    apply(
        &mut world,
        Command::ConfigureTileGrid {
            columns: TileCoord::new(columns),
            rows: TileCoord::new(rows),
            tile_length_bits: 100.0f32.to_bits(),
            cells_per_tile,
        },
        &mut events,
    );
    world
}

fn run(world: &mut World, command: Command) -> Vec<Event> {
    let mut events = Vec::new();
    assert!(command_fits_world(world, &command));
    apply(world, command, &mut events);
    events
}

#[test]
fn new_world_starts_in_builder_mode_with_starting_gold() {
    let world = World::new();
    assert_eq!(query::play_mode(&world), PlayMode::Builder);
    assert_eq!(query::gold(&world), Gold::new(100));
    assert_eq!(query::welcome_banner(&world), "Welcome to Maze Defence.");
    let grid = query::tile_grid(&world);
    assert_eq!((grid.columns.get(), grid.rows.get()), (10, 10));
    let bootstrap = Bootstrap;
    assert_eq!(bootstrap.welcome_banner(&world), "Welcome to Maze Defence.");
    assert_eq!(bootstrap.tile_grid(&world), grid);
    assert!(bootstrap.bugs(&world).iter().is_empty());
    assert_eq!(bootstrap.target(&world), query::target(&world));
}

#[test]
fn grid_geometry_adds_borders_walkway_and_exit_row() {
    let columns = TileCoord::new(10);
    let rows = TileCoord::new(10);
    assert_eq!(total_cell_columns(columns, 4), 42);
    assert_eq!(total_cell_rows(rows, 4), 43);
    assert_eq!(exit_row_for_tile_grid(rows, 4), 42);
    assert_eq!(exit_columns_for_tile_grid(columns, 4), vec![17, 18, 19, 20]);
    assert_eq!(visible_wall_row_for_tile_grid(rows, 4), Some(41));
    assert_eq!(walkway_row_for_tile_grid(rows, 4), Some(40));
    assert_eq!(total_cell_columns(TileCoord::new(0), 4), 0);

    let world = world_with_grid(10, 10, 4);
    assert_eq!(
        query::target_cells(&world),
        vec![
            CellCoord::new(17, 42),
            CellCoord::new(18, 42),
            CellCoord::new(19, 42),
            CellCoord::new(20, 42),
        ]
    );
    // The visible wall row is walled except for the exit gap.
    for column in 0..42 {
        let blocked = query::is_cell_blocked(&world, CellCoord::new(column, 41));
        assert_eq!(blocked, !(17..=20).contains(&column), "column {column}");
    }
}

#[test]
fn placement_spends_gold_and_reports_rejections() {
    let mut world = world_with_grid(10, 10, 4);
    let placed = run(
        &mut world,
        Command::PlaceTower { kind: TowerKind::Basic, origin: CellCoord::new(1, 1) },
    );
    let region = CellRect::from_origin_and_size(CellCoord::new(1, 1), CellRectSize::new(2, 2));
    assert_eq!(
        placed,
        vec![
            Event::GoldChanged { amount: Gold::new(90) },
            Event::TowerPlaced { tower: TowerId::new(0), kind: TowerKind::Basic, region },
        ]
    );
    assert_eq!(query::tower_at(&world, CellCoord::new(2, 2)), Some(TowerId::new(0)));
    assert_eq!(query::tower_at(&world, CellCoord::new(3, 2)), None);
    assert!(query::is_cell_blocked(&world, CellCoord::new(1, 1)));

    let overlapping = run(
        &mut world,
        Command::PlaceTower { kind: TowerKind::Basic, origin: CellCoord::new(1, 1) },
    );
    assert_eq!(
        overlapping,
        vec![Event::TowerPlacementRejected {
            kind: TowerKind::Basic,
            origin: CellCoord::new(1, 1),
            reason: PlacementError::Occupied,
        }]
    );
    let misaligned = run(
        &mut world,
        Command::PlaceTower { kind: TowerKind::Basic, origin: CellCoord::new(2, 1) },
    );
    assert_eq!(
        misaligned,
        vec![Event::TowerPlacementRejected {
            kind: TowerKind::Basic,
            origin: CellCoord::new(2, 1),
            reason: PlacementError::Misaligned,
        }]
    );
    let outside = run(
        &mut world,
        Command::PlaceTower { kind: TowerKind::Basic, origin: CellCoord::new(41, 1) },
    );
    assert!(matches!(
        outside.as_slice(),
        [Event::TowerPlacementRejected { reason: PlacementError::OutOfBounds, .. }]
    ));
    assert_eq!(query::gold(&world), Gold::new(90));
}

#[test]
fn placement_stops_when_gold_runs_out() {
    let mut world = world_with_grid(10, 10, 4);
    let mut placed = 0;
    let mut last = Vec::new();
    for index in 0..11u32 {
        let origin = CellCoord::new(1 + 4 * (index % 10), 1 + 4 * (index / 10));
        last = run(&mut world, Command::PlaceTower { kind: TowerKind::Basic, origin });
        if last.iter().any(|event| matches!(event, Event::TowerPlaced { .. })) {
            placed += 1;
        }
    }
    assert_eq!(placed, 10);
    assert_eq!(query::gold(&world), Gold::zero());
    assert!(matches!(
        last.as_slice(),
        [Event::TowerPlacementRejected { reason: PlacementError::InsufficientFunds, .. }]
    ));
}

#[test]
fn placement_and_removal_need_builder_mode() {
    let mut world = world_with_grid(10, 10, 4);
    run(&mut world, Command::PlaceTower { kind: TowerKind::Basic, origin: CellCoord::new(1, 1) });
    let switched = run(&mut world, Command::SetPlayMode { mode: PlayMode::Attack });
    assert_eq!(switched, vec![Event::PlayModeChanged { mode: PlayMode::Attack }]);
    assert!(run(&mut world, Command::SetPlayMode { mode: PlayMode::Attack }).is_empty());

    let rejected = run(
        &mut world,
        Command::PlaceTower { kind: TowerKind::Basic, origin: CellCoord::new(5, 5) },
    );
    assert!(matches!(
        rejected.as_slice(),
        [Event::TowerPlacementRejected { reason: PlacementError::InvalidMode, .. }]
    ));
    let refused = run(&mut world, Command::RemoveTower { tower: TowerId::new(0) });
    assert_eq!(
        refused,
        vec![Event::TowerRemovalRejected { tower: TowerId::new(0), reason: RemovalError::InvalidMode }]
    );

    run(&mut world, Command::SetPlayMode { mode: PlayMode::Builder });
    let removed = run(&mut world, Command::RemoveTower { tower: TowerId::new(0) });
    let region = CellRect::from_origin_and_size(CellCoord::new(1, 1), CellRectSize::new(2, 2));
    assert_eq!(removed, vec![Event::TowerRemoved { tower: TowerId::new(0), region }]);
    assert!(!query::is_cell_blocked(&world, CellCoord::new(1, 1)));
    let missing = run(&mut world, Command::RemoveTower { tower: TowerId::new(0) });
    assert_eq!(
        missing,
        vec![Event::TowerRemovalRejected { tower: TowerId::new(0), reason: RemovalError::MissingTower }]
    );
    // Removal refunds nothing.
    assert_eq!(query::gold(&world), Gold::new(90));
}

#[test]
fn spawning_needs_attack_mode_and_a_spawner() {
    let mut world = world_with_grid(5, 4, 1);
    let spawn = Command::SpawnBug {
        spawner: CellCoord::new(0, 0),
        color: BugColor::from_rgb(1, 2, 3),
        health: Health::new(3),
        step_ms: 250,
    };
    assert!(run(&mut world, spawn.clone()).is_empty());
    run(&mut world, Command::SetPlayMode { mode: PlayMode::Attack });
    let spawned = run(&mut world, spawn);
    assert!(matches!(
        spawned.as_slice(),
        [Event::BugSpawned { cell, .. }] if *cell == CellCoord::new(0, 0)
    ));
    let bugs = query::bug_view(&world);
    assert_eq!(bugs.iter().len(), 1);
    // A fresh bug has a full step accumulated and may step at once.
    assert!(bugs.iter()[0].ready_for_step);
    assert_eq!(bugs.iter()[0].accum_ms, 250);

    let ticked = run(&mut world, Command::Tick { dt: Duration::from_millis(250) });
    assert!(ticked.contains(&Event::TimeAdvanced { dt: Duration::from_millis(250) }));
    assert!(query::bug_view(&world).iter()[0].ready_for_step);

    // A cell in the middle of the grid is no spawner.
    let refused = run(
        &mut world,
        Command::SpawnBug {
            spawner: CellCoord::new(3, 3),
            color: BugColor::from_rgb(1, 2, 3),
            health: Health::new(3),
            step_ms: 250,
        },
    );
    assert!(refused.is_empty());
}

#[test]
fn region_placeability_checks_every_cell() {
    let mut world = world_with_grid(10, 10, 4);
    run(&mut world, Command::PlaceTower { kind: TowerKind::Basic, origin: CellCoord::new(5, 5) });
    let free = CellRect::from_origin_and_size(CellCoord::new(1, 1), CellRectSize::new(2, 2));
    let overlapping = CellRect::from_origin_and_size(CellCoord::new(4, 4), CellRectSize::new(2, 2));
    let empty = CellRect::from_origin_and_size(CellCoord::new(1, 1), CellRectSize::new(0, 2));
    let wall = CellRect::from_origin_and_size(CellCoord::new(0, 41), CellRectSize::new(1, 1));
    let overflowing =
        CellRect::from_origin_and_size(CellCoord::new(u32::MAX, 1), CellRectSize::new(2, 1));
    assert!(query::region_is_placeable(&world, free));
    assert!(!query::region_is_placeable(&world, overlapping));
    assert!(!query::region_is_placeable(&world, empty));
    assert!(!query::region_is_placeable(&world, wall));
    assert!(!query::region_is_placeable(&world, overflowing));
}

#[test]
fn analytics_snapshots_describe_towers_and_layout() {
    let mut world = world_with_grid(10, 10, 4);
    run(&mut world, Command::PlaceTower { kind: TowerKind::Basic, origin: CellCoord::new(1, 1) });
    let view = tower_view(&world);
    assert_eq!(view.iter().len(), 1);
    let snapshot = view.iter()[0];
    assert_eq!(snapshot.tower, TowerId::new(0));
    assert_eq!(snapshot.range_cells, 16);
    assert_eq!(snapshot.damage_per_second, 1);
    assert_eq!(compute_tower_dps(TowerKind::Basic), 1);

    let layout = layout_snapshot(&world);
    assert_eq!(layout.spawners(), query::bug_spawners(&world).as_slice());
    assert_eq!(layout.targets(), query::target_cells(&world).as_slice());
    assert!(!layout.spawners().is_empty());
}

#[test]
fn commands_beyond_identifier_limits_are_flagged() {
    let mut world = world_with_grid(5, 4, 1);
    world.next_bug_id = u32::MAX;
    let spawn = Command::SpawnBug {
        spawner: CellCoord::new(0, 0),
        color: BugColor::from_rgb(1, 2, 3),
        health: Health::new(3),
        step_ms: 250,
    };
    assert!(!command_fits_world(&world, &spawn));
    assert!(command_fits_world(&world, &Command::Tick { dt: Duration::from_millis(1) }));
    let grid = Command::ConfigureTileGrid {
        columns: TileCoord::new(12),
        rows: TileCoord::new(18),
        tile_length_bits: 0,
        cells_per_tile: 4,
    };
    assert!(command_fits_world(&world, &grid));
    world.towers.next_tower_id = TowerId::new(u32::MAX);
    assert!(!command_fits_world(
        &world,
        &Command::PlaceTower { kind: TowerKind::Basic, origin: CellCoord::new(1, 1) }
    ));
}

#[test]
fn placement_that_seals_the_exit_is_refused() {
    let mut world = world_with_grid(10, 10, 4);
    let first = run(&mut world, Command::PlaceTower { kind: TowerKind::Basic, origin: CellCoord::new(17, 39) });
    assert!(first.iter().any(|event| matches!(event, Event::TowerPlaced { .. })));
    let second = run(&mut world, Command::PlaceTower { kind: TowerKind::Basic, origin: CellCoord::new(19, 39) });
    assert!(matches!(
        second.as_slice(),
        [Event::TowerPlacementRejected { reason: PlacementError::PathBlocked, .. }]
    ));
    assert_eq!(query::gold(&world), Gold::new(90));
}

#[test]
fn towers_fire_once_per_cooldown_and_projectiles_land() {
    let mut world = world_with_grid(5, 4, 1);
    run(&mut world, Command::PlaceTower { kind: TowerKind::Basic, origin: CellCoord::new(1, 1) });
    let tower = TowerId::new(0);

    let idle = run(&mut world, Command::FireProjectile { tower, target: BugId::new(0) });
    assert_eq!(
        idle,
        vec![Event::ProjectileRejected {
            tower,
            target: BugId::new(0),
            reason: ProjectileRejection::InvalidMode,
        }]
    );

    run(&mut world, Command::SetPlayMode { mode: PlayMode::Attack });
    run(
        &mut world,
        Command::SpawnBug {
            spawner: CellCoord::new(0, 0),
            color: BugColor::from_rgb(9, 9, 9),
            health: Health::new(3),
            step_ms: 250,
        },
    );
    let bug = query::bug_view(&world).iter()[0].id;

    let missing_tower = run(&mut world, Command::FireProjectile { tower: TowerId::new(42), target: bug });
    assert!(matches!(
        missing_tower.as_slice(),
        [Event::ProjectileRejected { reason: ProjectileRejection::MissingTower, .. }]
    ));

    let fired = run(&mut world, Command::FireProjectile { tower, target: bug });
    assert_eq!(
        fired,
        vec![Event::ProjectileFired { projectile: ProjectileId::new(0), tower, target: bug }]
    );
    assert_eq!(query::projectiles(&world).len(), 1);

    let again = run(&mut world, Command::FireProjectile { tower, target: bug });
    assert!(matches!(
        again.as_slice(),
        [Event::ProjectileRejected { reason: ProjectileRejection::CooldownActive, .. }]
    ));

    let landed = run(&mut world, Command::Tick { dt: Duration::from_millis(1_000) });
    assert!(landed.contains(&Event::ProjectileHit {
        projectile: ProjectileId::new(0),
        target: bug,
        damage: Damage::new(1),
    }));
    assert!(landed.contains(&Event::BugDamaged { bug, remaining: Health::new(2) }));
    assert!(query::projectiles(&world).is_empty());

    let no_target = run(&mut world, Command::FireProjectile { tower, target: BugId::new(99) });
    assert!(matches!(
        no_target.as_slice(),
        [Event::ProjectileRejected { reason: ProjectileRejection::MissingTarget, .. }]
    ));
}
