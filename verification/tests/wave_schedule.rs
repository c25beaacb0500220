use maze_defence::core_types::geometry::CellCoord;
use maze_defence::systems::wave_schedule::{
    distinct_species, order_spawners, plan_wave_spawns, schedule_wave_spawns, PlannedSpawn, ScheduledSpawn,
    MAX_SPAWN_BAND, MIN_SPAWN_BAND,
};

fn spawn(species: u32, time_ms: u32, health: u32, step_ms: u32) -> PlannedSpawn {
    PlannedSpawn { species, time_ms, health, step_ms }
}

fn scheduled(at_ms: u64, column: u32, row: u32, species: u32, health: u32, step_ms: u32) -> ScheduledSpawn {
    ScheduledSpawn { at_ms, spawner: CellCoord::new(column, row), species, health, step_ms }
}

#[test]
fn spawners_are_ordered_by_row_then_column() {
    let ordered = order_spawners(&[CellCoord::new(3, 1), CellCoord::new(1, 0), CellCoord::new(0, 0)]);
    assert_eq!(ordered, vec![CellCoord::new(0, 0), CellCoord::new(1, 0), CellCoord::new(3, 1)]);
}

#[test]
fn species_are_listed_once_in_ascending_order() {
    let spawns = [spawn(7, 0, 1, 1), spawn(2, 0, 1, 1), spawn(7, 0, 1, 1), spawn(5, 0, 1, 1)];
    assert_eq!(distinct_species(&spawns), vec![2, 5, 7]);
}

#[test]
fn spawns_take_their_band_cells_in_turn_and_wait_for_cooldowns() {
    let spawners = [CellCoord::new(3, 1), CellCoord::new(0, 0), CellCoord::new(1, 0)];
    let spawns = [spawn(7, 0, 10, 100), spawn(2, 0, 5, 50), spawn(7, 10, 10, 100), spawn(7, 20, 10, 100)];
    let schedule = schedule_wave_spawns(&spawns, &spawners, 2, &[1, 2]);
    assert_eq!(
        schedule,
        vec![
            scheduled(0, 0, 0, 7, 10, 100),
            scheduled(0, 3, 1, 2, 5, 50),
            scheduled(10, 1, 0, 7, 10, 100),
            scheduled(100, 0, 0, 7, 10, 100),
        ]
    );
}

#[test]
fn full_length_band_uses_every_spawner_in_order() {
    let spawners = [CellCoord::new(1, 0), CellCoord::new(0, 0)];
    let spawns = [spawn(4, 30, 1, 10), spawn(4, 0, 1, 10), spawn(4, 0, 1, 10)];
    let schedule = schedule_wave_spawns(&spawns, &spawners, 1, &[2]);
    assert_eq!(
        schedule,
        vec![
            scheduled(0, 1, 0, 4, 1, 10),
            scheduled(30, 0, 0, 4, 1, 10),
            scheduled(40, 0, 0, 4, 1, 10),
        ]
    );
}

#[test]
fn nothing_is_scheduled_without_spawns_or_spawners() {
    assert!(schedule_wave_spawns(&[], &[CellCoord::new(0, 0)], 0, &[]).is_empty());
    assert!(schedule_wave_spawns(&[spawn(1, 0, 1, 1)], &[], 0, &[]).is_empty());
}

fn band_spawners(count: u32) -> Vec<CellCoord> {
    (0..count).map(|column| CellCoord::new(column, 0)).collect()
}

fn planned(count: u32, spacing: u32, health: u32, step_ms: u32) -> Vec<PlannedSpawn> {
    (0..count).map(|index| spawn(0, spacing.saturating_mul(index), health, step_ms)).collect()
}

#[test]
fn species_uses_multiple_spawners() {
    let plan = planned(12, 200, 5, 500);
    let spawners = band_spawners(20);

    let schedule = plan_wave_spawns(&plan, &spawners, 0xfeed_beef);
    assert_eq!(schedule.len(), plan.len());

    let mut unique: Vec<CellCoord> = schedule.iter().map(|spawn| spawn.spawner).collect();
    unique.sort_by_key(|cell| (cell.row, cell.column));
    unique.dedup();
    assert!(unique.len() >= MIN_SPAWN_BAND.min(spawners.len()));
}

#[test]
fn respects_per_spawner_cadence() {
    let plan = planned(30, 10, 5, 400);
    let spawners = band_spawners(5);

    let schedule = plan_wave_spawns(&plan, &spawners, 0x1234_5678);

    for cell in &spawners {
        let mut entries: Vec<(u64, u32)> = schedule
            .iter()
            .filter(|spawn| spawn.spawner == *cell)
            .map(|spawn| (spawn.at_ms, spawn.step_ms))
            .collect();
        entries.sort_by_key(|entry| entry.0);
        for window in entries.windows(2) {
            let previous = window[0];
            let next = window[1];
            assert!(next.0 >= previous.0 + u64::from(previous.1));
        }
    }
}

#[test]
fn deterministic_band_assignment() {
    let plan = planned(16, 120, 9, 360);
    let spawners = band_spawners(12);

    let left = plan_wave_spawns(&plan, &spawners, 0x77aa_bbcc);
    let right = plan_wave_spawns(&plan, &spawners, 0x77aa_bbcc);

    assert_eq!(left.len(), right.len());
    for (lhs, rhs) in left.iter().zip(right.iter()) {
        assert_eq!(lhs.spawner, rhs.spawner);
        assert_eq!(lhs.at_ms, rhs.at_ms);
        assert_eq!(lhs.step_ms, rhs.step_ms);
    }
}

#[test]
fn every_band_draw_respects_its_bounds() {
    let plan = planned(12, 200, 5, 500);
    let spawners = band_spawners(20);
    for band_length in MIN_SPAWN_BAND..=MAX_SPAWN_BAND {
        for band_start in [0usize, 7, 19] {
            let schedule = schedule_wave_spawns(&plan, &spawners, band_start, &[band_length]);
            let mut unique: Vec<CellCoord> = schedule.iter().map(|spawn| spawn.spawner).collect();
            unique.sort_by_key(|cell| (cell.row, cell.column));
            unique.dedup();
            assert_eq!(unique.len(), band_length.min(plan.len()));
        }
    }
}
