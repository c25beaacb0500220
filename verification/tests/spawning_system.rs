use maze_defence::core_types::geometry::CellCoord;
use maze_defence::core_types::messages::{Command, Event};
use maze_defence::core_types::time::Duration;
use maze_defence::core_types::values::{BugColor, Health, PlayMode};
use maze_defence::systems::spawning::{Config, Spawning};

#[test]
fn resolves_spawn_attempts_without_interval() {
    let mut spawning = Spawning::new(Config::new(Duration::zero(), 1));
    spawning.accumulator = Duration::from_secs(10);
    assert_eq!(spawning.resolve_spawn_attempts(), 0);
}

#[test]
fn resolves_one_attempt_per_whole_interval() {
    let mut spawning = Spawning::new(Config::new(Duration::from_millis(400), 1));
    spawning.accumulator = Duration::from_millis(1_000);
    assert_eq!(spawning.resolve_spawn_attempts(), 2);
    assert_eq!(spawning.accumulator, Duration::from_millis(200));
}

#[test]
fn spawns_cycle_colours_and_pick_spawners_from_the_generator() {
    let spawners = vec![CellCoord::new(0, 0), CellCoord::new(1, 0), CellCoord::new(2, 0)];
    let mut spawning = Spawning::new(Config::new(Duration::from_millis(1_000), 5));
    let mut out = Vec::new();
    spawning.handle(
        &[Event::TimeAdvanced { dt: Duration::from_millis(3_500) }],
        PlayMode::Attack,
        &spawners,
        &mut out,
    );
    let spawn = |column: u32, color: BugColor| Command::SpawnBug {
        spawner: CellCoord::new(column, 0),
        color,
        health: Health::new(3),
        step_ms: 250,
    };
    assert_eq!(
        out,
        vec![
            spawn(0, BugColor::from_rgb(0x2f, 0x95, 0x32)),
            spawn(1, BugColor::from_rgb(0xc8, 0x2a, 0x36)),
            spawn(1, BugColor::from_rgb(0xff, 0xc1, 0x07)),
        ]
    );
    assert_eq!(spawning.accumulator, Duration::from_millis(500));
    assert_eq!(spawning.rng_state, 17_854_410_917_725_272_544);
    assert_eq!(spawning.color_index, 3);
}

#[test]
fn builder_mode_clears_accumulated_time() {
    let spawners = vec![CellCoord::new(0, 0)];
    let mut spawning = Spawning::new(Config::new(Duration::from_millis(1_000), 5));
    let mut out = Vec::new();
    spawning.handle(
        &[Event::TimeAdvanced { dt: Duration::from_millis(600) }],
        PlayMode::Attack,
        &spawners,
        &mut out,
    );
    assert!(out.is_empty());
    assert_eq!(spawning.accumulator, Duration::from_millis(600));
    spawning.handle(&[], PlayMode::Builder, &spawners, &mut out);
    assert!(out.is_empty());
    assert_eq!(spawning.accumulator, Duration::zero());
}

#[test]
fn advance_rng_steps_the_linear_congruential_generator() {
    let mut spawning = Spawning::new(Config::new(Duration::from_millis(1_000), 5));
    assert_eq!(spawning.advance_rng(), 13_373_937_045_524_413_410);
    assert_eq!(spawning.advance_rng(), 7_075_136_697_979_364_539);
}
