use maze_defence::core_types::geometry::{CellCoord, CellPointHalf, CellRect, CellRectSize};
use maze_defence::core_types::time::Duration;
use maze_defence::core_types::values::{
    BugId, Damage, Gold, Health, NonZeroU32, TowerKind, CONGESTION_LOOKAHEAD, CONGESTION_WEIGHT,
    DETOUR_RADIUS,
};
use maze_defence::core_types::views::{Wall, WallView};
use maze_defence::core_types::fields::{NavigationFieldView, ReservationClaim, ReservationLedgerView};
use maze_defence::core_types::values::Direction;

#[test]
fn wall_view_sorts_and_deduplicates_cells() {
    let walls = vec![
        Wall::at(CellCoord::new(4, 2)),
        Wall::at(CellCoord::new(1, 1)),
        Wall::at(CellCoord::new(4, 2)),
        Wall::at(CellCoord::new(0, 3)),
    ];

    let view = WallView::from_walls(walls);
    let ordered: Vec<_> = view.iter().iter().map(|wall| wall.cell()).collect();

    assert_eq!(
        ordered,
        vec![
            CellCoord::new(0, 3),
            CellCoord::new(1, 1),
            CellCoord::new(4, 2),
        ]
    );
}

#[test]
fn manhattan_distance_matches_expectation() {
    let origin = CellCoord::new(1, 1);
    let destination = CellCoord::new(4, 3);
    assert_eq!(origin.manhattan_distance(destination), 5);
    assert_eq!(destination.manhattan_distance(origin), 5);
}

#[test]
fn tower_basic_range_in_tiles_matches_specification() {
    assert_eq!(TowerKind::Basic.range_in_tiles() as f32, 4.0);
}

#[test]
fn tower_basic_fire_cooldown_matches_specification() {
    assert_eq!(TowerKind::Basic.fire_cooldown_ms(), 1_000);
}

#[test]
fn tower_basic_projectile_speed_matches_specification() {
    assert_eq!(TowerKind::Basic.projectile_travel_time_ms(), 1_000);
}

#[test]
fn tower_basic_projectile_damage_matches_specification() {
    assert_eq!(TowerKind::Basic.projectile_damage(), Damage::new(1));
}

#[test]
fn tower_range_in_cells_scales_with_configuration() {
    let cells_per_tile = 3;
    assert_eq!(TowerKind::Basic.range_in_cells(cells_per_tile), 12);
}

#[test]
fn navigation_constants_match_specification() {
    assert_eq!(CONGESTION_LOOKAHEAD, 5);
    assert_eq!(CONGESTION_WEIGHT, 3);
    assert_eq!(DETOUR_RADIUS, 6);
}

#[test]
fn tower_range_in_cells_handles_zero_configuration() {
    assert_eq!(TowerKind::Basic.range_in_cells(0), 0);
}

#[test]
fn tower_range_in_cells_handles_large_configuration() {
    let cells_per_tile = 10_000;
    assert_eq!(TowerKind::Basic.range_in_cells(cells_per_tile), 40_000);
}

#[test]
fn range_in_cells_is_monotonic_and_truncates() {
    for cells_per_tile in 0..=32 {
        let got = TowerKind::Basic.range_in_cells(cells_per_tile);
        let expect = (TowerKind::Basic.range_in_tiles() as f32 * cells_per_tile as f32).floor() as u32;
        assert_eq!(got, expect, "cpt={cells_per_tile}");
    }

    let mut previous = 0;
    for cells_per_tile in 0..=32 {
        let now = TowerKind::Basic.range_in_cells(cells_per_tile);
        assert!(now >= previous, "cpt={cells_per_tile}");
        previous = now;
    }
}

#[test]
fn health_saturating_sub_saturates_at_zero() {
    let start = Health::new(5);
    let reduced = start.saturating_sub(Damage::new(2));
    assert_eq!(reduced, Health::new(3));

    let zeroed = start.saturating_sub(Damage::new(9));
    assert_eq!(zeroed, Health::zero());
    assert!(zeroed.is_zero());
}

#[test]
fn range_in_cells_nz_matches_truncating_contract() {
    let cells_per_tile = NonZeroU32::new(7).expect("non-zero");
    assert_eq!(
        TowerKind::Basic.range_in_cells_nz(cells_per_tile),
        TowerKind::Basic.range_in_cells(cells_per_tile.get())
    );
}

#[test]
fn range_in_cells_saturates_at_u32_max() {
    assert_eq!(TowerKind::Basic.range_in_cells(u32::MAX), u32::MAX);
    assert_eq!(TowerKind::Basic.range_in_cells(1 << 30), u32::MAX);
    assert_eq!(TowerKind::Basic.range_in_cells((1 << 30) - 1), 4 * ((1 << 30) - 1));
}

#[test]
fn tower_build_cost_is_ten_gold() {
    assert_eq!(TowerKind::Basic.build_cost(), Gold::new(10));
}

#[test]
fn gold_arithmetic_saturates() {
    assert_eq!(Gold::new(u32::MAX).saturating_add(Gold::new(1)), Gold::new(u32::MAX));
    assert_eq!(Gold::new(3).saturating_sub(Gold::new(5)), Gold::zero());
    assert_eq!(Gold::new(8).saturating_sub(Gold::new(5)), Gold::new(3));
}

#[test]
fn non_zero_rejects_zero() {
    assert!(NonZeroU32::new(0).is_none());
    assert_eq!(NonZeroU32::new(9).map(|n| n.get()), Some(9));
}

#[test]
fn half_cell_distance_rounds_up() {
    let a = CellPointHalf::new(0, 0);
    assert_eq!(a.distance_to(CellPointHalf::new(3, 4)), 5);
    assert_eq!(a.distance_to(CellPointHalf::new(1, 1)), 2);
    assert_eq!(a.distance_to(a), 0);
    assert_eq!(
        CellPointHalf::new(i64::MIN, i64::MIN).distance_to(CellPointHalf::new(i64::MAX, i64::MAX)),
        13_043_817_825_332_782_213
    );
}

#[test]
fn cell_rect_contains_origin_but_not_far_edge() {
    let rect = CellRect::from_origin_and_size(CellCoord::new(2, 3), CellRectSize::new(2, 2));
    assert!(rect.contains(CellCoord::new(2, 3)));
    assert!(rect.contains(CellCoord::new(3, 4)));
    assert!(!rect.contains(CellCoord::new(4, 3)));
    assert!(!rect.contains(CellCoord::new(1, 3)));
}

#[test]
fn navigation_field_view_reports_distances_in_bounds() {
    let view = NavigationFieldView::from_owned(vec![3, 2, 1, 2, 1, 0], 3, 2);
    assert_eq!(view.distance(CellCoord::new(0, 0)), Some(3));
    assert_eq!(view.distance(CellCoord::new(2, 1)), Some(0));
    assert_eq!(view.distance(CellCoord::new(3, 0)), None);
    assert_eq!(view.index_of(CellCoord::new(1, 1)), Some(4));
    assert_eq!(view.index_of(CellCoord::new(0, 2)), None);
    assert_eq!(NavigationFieldView::expected_len(3, 2), 6);
    assert_eq!(view.clone().into_owned(), view);
}

#[test]
fn bug_id_round_trips() {
    assert_eq!(BugId::new(7).get(), 7);
}

#[test]
fn duration_saturates_and_orders() {
    let a = Duration::from_millis(1_500);
    let b = Duration::from_millis(500);
    assert_eq!(a.saturating_sub(b), Duration::from_millis(1_000));
    assert_eq!(b.saturating_sub(a), Duration::zero());
    assert_eq!(a.saturating_add(b), Duration::from_secs(2));
}

#[test]
fn reservation_ledger_orders_claims_by_bug_id() {
    let ledger = ReservationLedgerView::from_owned(vec![
        ReservationClaim::new(BugId::new(5), Direction::North),
        ReservationClaim::new(BugId::new(2), Direction::East),
    ]);
    let ids: Vec<BugId> = ledger.iter().iter().map(|claim| claim.bug_id()).collect();
    assert_eq!(ids, vec![BugId::new(2), BugId::new(5)]);
    assert_eq!(ledger.len(), 2);
}

#[test]
fn reservation_ledger_keeps_order_of_claims_of_one_bug() {
    let claims = [
        ReservationClaim::new(BugId::new(9), Direction::South),
        ReservationClaim::new(BugId::new(3), Direction::West),
        ReservationClaim::new(BugId::new(9), Direction::North),
        ReservationClaim::new(BugId::new(1), Direction::East),
    ];
    let ledger = ReservationLedgerView::from_slice(&claims);
    assert_eq!(
        ledger.iter(),
        &[
            ReservationClaim::new(BugId::new(1), Direction::East),
            ReservationClaim::new(BugId::new(3), Direction::West),
            ReservationClaim::new(BugId::new(9), Direction::South),
            ReservationClaim::new(BugId::new(9), Direction::North),
        ]
    );
    assert_eq!(ledger.claim_for(BugId::new(9)), Some(ReservationClaim::new(BugId::new(9), Direction::South)));
}

#[test]
fn health_and_gold_have_zero_values() {
    assert_eq!(Health::zero(), Health::new(0));
    assert!(Health::zero().is_zero());
    assert_eq!(Gold::zero(), Gold::new(0));
}
