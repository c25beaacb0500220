use maze_defence::core_types::geometry::{CellCoord, CellRect, CellRectSize};
use maze_defence::core_types::time::Duration;
use maze_defence::core_types::values::{TowerId, TowerKind};
use maze_defence::world::navigation::NavigationField;
use maze_defence::world::towers::{footprint_for, TowerRegistry, TowerState};

fn blocked_mask(width: u32, height: u32, blocked: impl Fn(CellCoord) -> bool) -> Vec<bool> {
    let mut mask = Vec::new();
    for row in 0..height {
        for column in 0..width {
            mask.push(blocked(CellCoord::new(column, row)));
        }
    }
    mask
}

#[test]
fn basic_tower_footprint_is_two_by_two() {
    let footprint = footprint_for(TowerKind::Basic);
    assert_eq!(footprint.width(), 2);
    assert_eq!(footprint.height(), 2);
}

#[test]
fn registry_starts_empty_with_zero_identifier() {
    let registry = TowerRegistry::new();
    assert!(registry.entries.is_empty());
    assert_eq!(registry.next_tower_id.get(), 0);
}

#[test]
fn allocating_identifiers_advances_counter() {
    let mut registry = TowerRegistry::new();
    let first = registry.allocate();
    let second = registry.allocate();

    assert_eq!(first, TowerId::new(0));
    assert_eq!(second, TowerId::new(1));
    assert_eq!(registry.next_tower_id.get(), 2);
}

#[test]
fn insert_and_remove_round_trip_restores_state() {
    let mut registry = TowerRegistry::new();
    let id = registry.allocate();
    let region = CellRect::from_origin_and_size(CellCoord::new(2, 3), CellRectSize::new(2, 2));
    registry.insert(TowerState {
        id,
        kind: TowerKind::Basic,
        region,
        cooldown_remaining: Duration::zero(),
    });

    let retrieved = registry.get(id).expect("tower present");
    assert_eq!(retrieved.id, id);
    assert_eq!(retrieved.region, region);

    let removed = registry.remove(id).expect("tower present");
    assert_eq!(removed.id, id);
    assert!(registry.is_empty());
}

#[test]
fn tower_state_preserves_constructor_fields() {
    let region = CellRect::from_origin_and_size(CellCoord::new(1, 2), CellRectSize::new(2, 3));
    let state = TowerState {
        id: TowerId::new(7),
        kind: TowerKind::Basic,
        region,
        cooldown_remaining: Duration::zero(),
    };

    assert_eq!(state.id, TowerId::new(7));
    assert_eq!(state.kind, TowerKind::Basic);
    assert_eq!(state.region, region);
}

#[test]
fn registry_keeps_identifier_order_and_replaces_duplicates() {
    let mut registry = TowerRegistry::new();
    let region = CellRect::from_origin_and_size(CellCoord::new(0, 0), CellRectSize::new(2, 2));
    for id in [5, 1, 3] {
        registry.insert(TowerState {
            id: TowerId::new(id),
            kind: TowerKind::Basic,
            region,
            cooldown_remaining: Duration::zero(),
        });
    }
    let ids: Vec<u32> = registry.iter().iter().map(|t| t.id.get()).collect();
    assert_eq!(ids, vec![1, 3, 5]);

    let moved = CellRect::from_origin_and_size(CellCoord::new(4, 4), CellRectSize::new(2, 2));
    registry.insert(TowerState {
        id: TowerId::new(3),
        kind: TowerKind::Basic,
        region: moved,
        cooldown_remaining: Duration::zero(),
    });
    assert_eq!(registry.iter().len(), 3);
    assert_eq!(registry.get(TowerId::new(3)).map(|t| t.region), Some(moved));
    assert!(registry.remove(TowerId::new(9)).is_none());
    assert_eq!(registry.iter().len(), 3);
}

#[test]
fn allocation_saturates_at_maximum_identifier() {
    let mut registry = TowerRegistry::new();
    registry.next_tower_id = TowerId::new(u32::MAX);
    assert_eq!(registry.allocate(), TowerId::new(u32::MAX));
    assert_eq!(registry.next_tower_id.get(), u32::MAX);
}

#[test]
fn rebuild_with_sets_exit_cells_to_zero() {
    let mut field = NavigationField::new();
    let exits = [CellCoord::new(1, 2)];

    field.rebuild_with(3, 4, &exits, &blocked_mask(3, 4, |_| false));

    assert_eq!(field.distance(CellCoord::new(1, 2)), Some(0));
    assert_eq!(field.distance(CellCoord::new(1, 1)), Some(1));
    assert_eq!(field.distance(CellCoord::new(1, 0)), Some(2));
    assert_eq!(field.distance(CellCoord::new(0, 0)), Some(3));
}

#[test]
fn rebuild_with_respects_walls() {
    let mut field = NavigationField::new();
    let exits = [CellCoord::new(1, 2)];
    let wall = CellCoord::new(1, 1);

    field.rebuild_with(3, 4, &exits, &blocked_mask(3, 4, |cell| cell == wall));

    assert_eq!(field.distance(wall), Some(u16::MAX));
    assert_eq!(field.distance(CellCoord::new(1, 0)), Some(4));
    assert_eq!(field.distance(CellCoord::new(0, 1)), Some(2));
}

#[test]
fn rebuild_with_marks_enclosed_cells_unreachable() {
    let mut field = NavigationField::new();
    let exits = [CellCoord::new(0, 0)];
    let walls = [CellCoord::new(1, 0), CellCoord::new(0, 1), CellCoord::new(1, 1)];
    field.rebuild_with(3, 3, &exits, &blocked_mask(3, 3, |cell| walls.contains(&cell)));

    assert_eq!(field.distance(CellCoord::new(0, 0)), Some(0));
    assert_eq!(field.distance(CellCoord::new(2, 2)), Some(u16::MAX));
    assert_eq!(field.distance(CellCoord::new(3, 0)), None);
    assert_eq!(field.width(), 3);
    assert_eq!(field.height(), 3);
    assert_eq!(field.cells().len(), 9);
}
