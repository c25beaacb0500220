use maze_defence::core_types::analytics::{
    AnalyticsLayoutSnapshot, TowerAnalyticsSnapshot, TowerAnalyticsView,
};
use maze_defence::core_types::fields::NavigationFieldView;
use maze_defence::core_types::geometry::{CellCoord, CellRect, CellRectSize};
use maze_defence::core_types::values::{TowerId, TowerKind};
use maze_defence::systems::analytics::{
    select_shortest_navigation_path, tower_coverage_mean_bps, tower_firing_completion_percent_bps,
    trace_path, TowerRangeCache,
};

#[test]
fn chooses_shortest_path_across_spawners() {
    let navigation = NavigationFieldView::from_owned(vec![4, 3, 2, 3, 2, 1, 2, 1, 0], 3, 3);
    let layout = AnalyticsLayoutSnapshot::new(
        vec![CellCoord::new(0, 0), CellCoord::new(0, 1)],
        vec![CellCoord::new(2, 2)],
    );

    let selected =
        select_shortest_navigation_path(&navigation, &layout).expect("expected reachable path");

    assert_eq!(
        selected,
        &[
            CellCoord::new(0, 1),
            CellCoord::new(1, 1),
            CellCoord::new(2, 1),
            CellCoord::new(2, 2)
        ]
    );
}

#[test]
fn ignores_unreachable_spawners() {
    let navigation = NavigationFieldView::from_owned(
        vec![u16::MAX, u16::MAX, 2, u16::MAX, 2, 1, 2, 1, 0],
        3,
        3,
    );
    let layout = AnalyticsLayoutSnapshot::new(
        vec![CellCoord::new(0, 0), CellCoord::new(1, 2)],
        vec![CellCoord::new(2, 2)],
    );

    let selected = select_shortest_navigation_path(&navigation, &layout)
        .expect("reachable spawner should yield a path");

    assert_eq!(selected, &[CellCoord::new(1, 2), CellCoord::new(2, 2)]);
}

#[test]
fn returns_none_when_no_path_exists() {
    let navigation = NavigationFieldView::from_owned(vec![u16::MAX; 4], 2, 2);
    let layout =
        AnalyticsLayoutSnapshot::new(vec![CellCoord::new(0, 0)], vec![CellCoord::new(1, 1)]);

    assert!(select_shortest_navigation_path(&navigation, &layout).is_none());
}

fn tower(id: u32, origin: (u32, u32), size: (u32, u32), range_cells: u32) -> TowerAnalyticsSnapshot {
    TowerAnalyticsSnapshot {
        tower: TowerId::new(id),
        kind: TowerKind::Basic,
        region: CellRect::from_origin_and_size(
            CellCoord::new(origin.0, origin.1),
            CellRectSize::new(size.0, size.1),
        ),
        range_cells,
        damage_per_second: 10,
    }
}

#[test]
fn tower_coverage_returns_mean_basis_points() {
    let path = vec![
        CellCoord::new(0, 0),
        CellCoord::new(1, 0),
        CellCoord::new(2, 0),
    ];

    let towers = TowerAnalyticsView::from_snapshots(vec![
        tower(1, (0, 0), (1, 1), 2),
        tower(2, (2, 0), (1, 1), 1),
    ]);

    let coverage = tower_coverage_mean_bps(&path, &towers);
    assert_eq!(coverage, 8_333);
}

#[test]
fn tower_coverage_zero_when_no_towers_or_path() {
    let empty_path: Vec<CellCoord> = Vec::new();
    let towers = TowerAnalyticsView::default();

    assert_eq!(tower_coverage_mean_bps(&empty_path, &towers), 0);

    let path = vec![CellCoord::new(0, 0)];
    assert_eq!(tower_coverage_mean_bps(&path, &towers), 0);
}

#[test]
fn firing_completion_tracks_furthest_first_opportunity() {
    let path = vec![
        CellCoord::new(0, 0),
        CellCoord::new(1, 0),
        CellCoord::new(2, 0),
        CellCoord::new(3, 0),
    ];

    let towers = TowerAnalyticsView::from_snapshots(vec![
        tower(1, (0, 0), (1, 1), 1),
        tower(2, (3, 0), (1, 1), 1),
    ]);

    let completion = tower_firing_completion_percent_bps(&path, &towers);
    assert_eq!(completion, 6_666);
}

#[test]
fn firing_completion_saturates_when_tower_never_sees_path() {
    let path = vec![CellCoord::new(0, 0), CellCoord::new(1, 0)];

    let towers = TowerAnalyticsView::from_snapshots(vec![tower(1, (5, 5), (1, 1), 1)]);

    let completion = tower_firing_completion_percent_bps(&path, &towers);
    assert_eq!(completion, 10_000);
}

#[test]
fn firing_completion_handles_single_cell_path() {
    let path = vec![CellCoord::new(0, 0)];

    let towers = TowerAnalyticsView::from_snapshots(vec![tower(1, (0, 0), (1, 1), 1)]);

    let completion = tower_firing_completion_percent_bps(&path, &towers);
    assert_eq!(completion, 0);

    let unreachable_tower = TowerAnalyticsView::from_snapshots(vec![tower(2, (4, 4), (1, 1), 1)]);

    let completion_unreachable = tower_firing_completion_percent_bps(&path, &unreachable_tower);
    assert_eq!(completion_unreachable, 10_000);
}

#[test]
fn firing_completion_zero_when_no_towers() {
    let path = vec![CellCoord::new(0, 0), CellCoord::new(1, 0)];
    let towers = TowerAnalyticsView::default();

    assert_eq!(tower_firing_completion_percent_bps(&path, &towers), 0);
}

#[test]
fn zero_sized_towers_count_in_the_mean_but_cover_nothing() {
    let path = vec![CellCoord::new(0, 0)];
    let towers = TowerAnalyticsView::from_snapshots(vec![
        tower(1, (0, 0), (1, 1), 1),
        tower(2, (0, 0), (0, 1), 5),
    ]);
    assert_eq!(tower_coverage_mean_bps(&path, &towers), 5_000);
    assert_eq!(tower_firing_completion_percent_bps(&path, &towers), 10_000);
}

#[test]
fn range_cache_uses_half_cell_units() {
    let cache = TowerRangeCache::from_snapshot(&tower(1, (2, 3), (2, 2), 3)).expect("footprint");
    assert_eq!(cache.center_column, 6);
    assert_eq!(cache.center_row, 8);
    assert_eq!(cache.range_squared_half, 36);
    assert!(cache.contains_cell(12, 8));
    assert!(!cache.contains_cell(13, 8));
    assert!(!cache.contains_cell(i64::MIN, i64::MAX));
    assert!(TowerRangeCache::from_snapshot(&tower(1, (2, 3), (0, 2), 3)).is_none());
    assert_eq!(cache.first_path_index(&[CellCoord::new(9, 9), CellCoord::new(4, 4)]), Some(1));
    assert_eq!(cache.first_path_index(&[CellCoord::new(9, 9)]), None);
}

#[test]
fn trace_follows_first_steepest_neighbour() {
    // Both the east and the south neighbour are one closer; north-east-south-west
    // order picks east first.
    let navigation = NavigationFieldView::from_owned(vec![2, 1, 1, 0], 2, 2);
    assert_eq!(
        trace_path(CellCoord::new(0, 0), &navigation),
        Some(vec![CellCoord::new(0, 0), CellCoord::new(1, 0), CellCoord::new(1, 1)])
    );
    // A local minimum above zero stops the trace.
    let stuck = NavigationFieldView::from_owned(vec![1, 2, 2, 3], 2, 2);
    assert_eq!(trace_path(CellCoord::new(0, 0), &stuck), None);
    // Outside the field there is no route.
    assert_eq!(trace_path(CellCoord::new(5, 5), &navigation), None);
}
