use maze_defence::core_types::geometry::{CellCoord, CellPointHalf, CellRect, CellRectSize};
use maze_defence::core_types::layout::TowerTarget;
use maze_defence::core_types::messages::Command;
use maze_defence::core_types::time::Duration;
use maze_defence::core_types::values::{BugColor, BugId, Health, PlayMode, TowerId, TowerKind};
use maze_defence::core_types::views::{
    BugSnapshot, BugView, TowerCooldownSnapshot, TowerCooldownView, TowerSnapshot, TowerView,
};
use maze_defence::systems::tower_combat::TowerCombat;
use maze_defence::systems::tower_targeting::TowerTargeting;

fn tower_view(snapshots: Vec<TowerSnapshot>) -> TowerView {
    TowerView::from_snapshots(snapshots)
}

fn bug_view(snapshots: Vec<BugSnapshot>) -> BugView {
    BugView::from_snapshots(snapshots)
}

fn tower_snapshot(id: u32, origin: (u32, u32), size: (u32, u32)) -> TowerSnapshot {
    TowerSnapshot {
        id: TowerId::new(id),
        kind: TowerKind::Basic,
        region: CellRect::from_origin_and_size(
            CellCoord::new(origin.0, origin.1),
            CellRectSize::new(size.0, size.1),
        ),
    }
}

fn bug_snapshot(id: u32, cell: (u32, u32)) -> BugSnapshot {
    BugSnapshot {
        id: BugId::new(id),
        cell: CellCoord::new(cell.0, cell.1),
        color: BugColor::from_rgb(255, 0, 0),
        max_health: Health::new(3),
        health: Health::new(3),
        step_ms: 250,
        accum_ms: 250,
        ready_for_step: true,
    }
}

fn half(column: f32, row: f32) -> CellPointHalf {
    CellPointHalf::new((column * 2.0) as i64, (row * 2.0) as i64)
}

#[test]
fn targets_bug_within_range() {
    let mut system = TowerTargeting::new();
    let towers = tower_view(vec![tower_snapshot(1, (4, 4), (2, 2))]);
    let bugs = bug_view(vec![bug_snapshot(2, (7, 5))]);

    let mut out = Vec::new();
    system.handle(PlayMode::Attack, &towers, &bugs, 2, &mut out);

    assert_eq!(out.len(), 1);
    let target = out[0];
    assert_eq!(target.tower, TowerId::new(1));
    assert_eq!(target.bug, BugId::new(2));
    assert_eq!(target.tower_center_half, half(5.0, 5.0));
    assert_eq!(target.bug_center_half, half(7.5, 5.5));
}

#[test]
fn bug_outside_range_is_ignored() {
    let mut system = TowerTargeting::new();
    let towers = tower_view(vec![tower_snapshot(1, (0, 0), (2, 2))]);
    let bugs = bug_view(vec![bug_snapshot(2, (20, 20))]);

    let mut out = Vec::new();
    system.handle(PlayMode::Attack, &towers, &bugs, 2, &mut out);

    assert!(out.is_empty());
}

#[test]
fn smaller_bug_id_is_preferred_when_distances_match() {
    let mut system = TowerTargeting::new();
    let towers = tower_view(vec![tower_snapshot(1, (2, 2), (2, 2))]);
    let bugs = bug_view(vec![bug_snapshot(20, (4, 3)), bug_snapshot(10, (1, 3))]);

    let mut out = Vec::new();
    system.handle(PlayMode::Attack, &towers, &bugs, 2, &mut out);

    assert_eq!(out.len(), 1);
    assert_eq!(out[0].bug, BugId::new(10));
}

#[test]
fn column_tie_break_prefers_smaller_column() {
    let mut system = TowerTargeting::new();
    let towers = tower_view(vec![tower_snapshot(1, (4, 4), (2, 2))]);
    let bugs = bug_view(vec![bug_snapshot(10, (6, 5)), bug_snapshot(10, (4, 5))]);

    let mut out = Vec::new();
    system.handle(PlayMode::Attack, &towers, &bugs, 4, &mut out);

    assert_eq!(out.len(), 1);
    assert_eq!(out[0].bug_center_half, half(4.5, 5.5));
}

#[test]
fn row_tie_break_prefers_smaller_row() {
    let mut system = TowerTargeting::new();
    let towers = tower_view(vec![tower_snapshot(1, (4, 4), (2, 2))]);
    let bugs = bug_view(vec![bug_snapshot(10, (5, 6)), bug_snapshot(10, (5, 4))]);

    let mut out = Vec::new();
    system.handle(PlayMode::Attack, &towers, &bugs, 4, &mut out);

    assert_eq!(out.len(), 1);
    assert_eq!(out[0].bug_center_half, half(5.5, 4.5));
}

#[test]
fn zero_sized_tower_produces_no_target() {
    let mut system = TowerTargeting::new();
    let towers = tower_view(vec![tower_snapshot(1, (2, 2), (0, 3))]);
    let bugs = bug_view(vec![bug_snapshot(1, (2, 2))]);

    let mut out = Vec::new();
    system.handle(PlayMode::Attack, &towers, &bugs, 2, &mut out);

    assert!(out.is_empty());
}

#[test]
fn builder_mode_clears_output() {
    let mut system = TowerTargeting::new();
    let towers = tower_view(vec![tower_snapshot(1, (0, 0), (2, 2))]);
    let bugs = bug_view(vec![bug_snapshot(1, (1, 1))]);

    let mut out = vec![TowerTarget {
        tower: TowerId::new(99),
        bug: BugId::new(99),
        tower_center_half: half(0.0, 0.0),
        bug_center_half: half(0.0, 0.0),
    }];

    system.handle(PlayMode::Builder, &towers, &bugs, 2, &mut out);
    assert!(out.is_empty());
}

#[test]
fn empty_collections_produce_no_targets() {
    let mut system = TowerTargeting::new();
    let towers = tower_view(Vec::new());
    let bugs = bug_view(vec![bug_snapshot(1, (1, 1))]);

    let mut out = Vec::new();
    system.handle(PlayMode::Attack, &towers, &bugs, 2, &mut out);
    assert!(out.is_empty());

    let towers = tower_view(vec![tower_snapshot(1, (0, 0), (2, 2))]);
    let bugs = bug_view(Vec::new());
    system.handle(PlayMode::Attack, &towers, &bugs, 2, &mut out);
    assert!(out.is_empty());
}

#[test]
fn decreasing_cells_per_tile_removes_out_of_range_targets() {
    let mut system = TowerTargeting::new();
    let towers = tower_view(vec![tower_snapshot(1, (0, 0), (2, 2))]);
    let bugs = bug_view(vec![bug_snapshot(1, (7, 0))]);

    let mut out = Vec::new();
    system.handle(PlayMode::Attack, &towers, &bugs, 2, &mut out);
    assert_eq!(out.len(), 1, "bug should be in range with larger cells_per_tile");

    system.handle(PlayMode::Attack, &towers, &bugs, 1, &mut out);
    assert!(out.is_empty(), "bug should fall out of range with smaller cells_per_tile");
}

#[test]
fn removing_bugs_does_not_select_out_of_range_candidates() {
    let mut system = TowerTargeting::new();
    let towers = tower_view(vec![tower_snapshot(1, (0, 0), (2, 2))]);
    let bugs = bug_view(vec![bug_snapshot(1, (2, 0)), bug_snapshot(2, (20, 0))]);
    let mut out = Vec::new();
    system.handle(PlayMode::Attack, &towers, &bugs, 2, &mut out);
    assert_eq!(out.len(), 1);
    assert_eq!(out[0].bug, BugId::new(1));

    let bugs = bug_view(vec![bug_snapshot(2, (20, 0))]);
    system.handle(PlayMode::Attack, &towers, &bugs, 2, &mut out);
    assert!(out.is_empty(), "far bug should not be targeted when alone");
}

#[test]
fn every_tower_picks_its_own_nearest_bug() {
    let mut system = TowerTargeting::new();
    let towers = tower_view(vec![
        tower_snapshot(2, (10, 0), (2, 2)),
        tower_snapshot(1, (0, 0), (2, 2)),
    ]);
    let bugs = bug_view(vec![bug_snapshot(5, (2, 1)), bug_snapshot(6, (9, 1))]);
    let mut out = Vec::new();
    system.handle(PlayMode::Attack, &towers, &bugs, 2, &mut out);
    assert_eq!(out.len(), 2);
    assert_eq!((out[0].tower, out[0].bug), (TowerId::new(1), BugId::new(5)));
    assert_eq!((out[1].tower, out[1].bug), (TowerId::new(2), BugId::new(6)));
}

fn snapshot(tower: u32, ready_in: Duration) -> TowerCooldownSnapshot {
    TowerCooldownSnapshot {
        tower: TowerId::new(tower),
        kind: TowerKind::Basic,
        ready_in,
    }
}

fn target(tower: u32, bug: u32) -> TowerTarget {
    TowerTarget {
        tower: TowerId::new(tower),
        bug: BugId::new(bug),
        tower_center_half: CellPointHalf::new(0, 0),
        bug_center_half: CellPointHalf::new(0, 0),
    }
}

#[test]
fn builder_mode_is_silent() {
    let mut system = TowerCombat::new();
    let cooldowns = TowerCooldownView::from_snapshots(vec![snapshot(1, Duration::zero())]);
    let targets = vec![target(1, 7)];
    let mut out = Vec::new();

    system.handle(PlayMode::Builder, cooldowns, &targets, &mut out);

    assert!(out.is_empty());
}

#[test]
fn firing_respects_cooldown_readiness() {
    let mut system = TowerCombat::new();
    let cooldowns = TowerCooldownView::from_snapshots(vec![
        snapshot(2, Duration::zero()),
        snapshot(5, Duration::zero()),
    ]);
    let targets = vec![target(2, 4), target(5, 1)];
    let mut out = Vec::new();

    system.handle(PlayMode::Attack, cooldowns, &targets, &mut out);

    assert_eq!(
        out,
        vec![
            Command::FireProjectile {
                tower: TowerId::new(2),
                target: BugId::new(4),
            },
            Command::FireProjectile {
                tower: TowerId::new(5),
                target: BugId::new(1),
            },
        ],
    );
}

#[test]
fn non_ready_or_missing_towers_are_skipped() {
    let mut system = TowerCombat::new();
    let cooldowns = TowerCooldownView::from_snapshots(vec![
        snapshot(3, Duration::from_millis(250)),
        snapshot(8, Duration::zero()),
    ]);
    let targets = vec![target(3, 9), target(8, 2), target(42, 3)];
    let mut out = Vec::new();

    system.handle(PlayMode::Attack, cooldowns, &targets, &mut out);

    assert_eq!(
        out,
        vec![Command::FireProjectile {
            tower: TowerId::new(8),
            target: BugId::new(2),
        }],
    );
}
