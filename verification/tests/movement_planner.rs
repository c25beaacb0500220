use maze_defence::core_types::fields::{NavigationFieldView, OccupancyView};
use maze_defence::core_types::geometry::CellCoord;
use maze_defence::core_types::values::{BugColor, BugId, Direction, Health};
use maze_defence::core_types::views::BugSnapshot;
use maze_defence::systems::movement::{cell_available_for, direction_between, CrowdPlanner, Movement};

fn navigation_stub(width: u32, height: u32) -> NavigationFieldView {
    let cells = usize::try_from(width).unwrap_or(0) * usize::try_from(height).unwrap_or(0);
    NavigationFieldView::from_owned(vec![0; cells], width, height)
}

fn navigation_with_distances(width: u32, height: u32, distances: Vec<u16>) -> NavigationFieldView {
    NavigationFieldView::from_owned(distances, width, height)
}

fn occupancy_stub(width: u32, height: u32) -> Vec<Option<BugId>> {
    let cells = usize::try_from(width).unwrap_or(0) * usize::try_from(height).unwrap_or(0);
    vec![None; cells]
}

fn set_occupant(cells: &mut [Option<BugId>], width: u32, cell: CellCoord, bug_id: BugId) {
    let width = usize::try_from(width).expect("width fits usize");
    let row = usize::try_from(cell.row()).expect("row fits usize");
    let column = usize::try_from(cell.column()).expect("column fits usize");
    let index = row * width + column;
    if let Some(slot) = cells.get_mut(index) {
        *slot = Some(bug_id);
    }
}

fn mask(width: u32, height: u32, blocked: impl Fn(CellCoord) -> bool) -> Vec<bool> {
    let mut out = Vec::new();
    for row in 0..height {
        for column in 0..width {
            out.push(blocked(CellCoord::new(column, row)));
        }
    }
    out
}

fn bug_snapshot_at(cell: CellCoord) -> BugSnapshot {
    BugSnapshot {
        id: BugId::new(1),
        cell,
        color: BugColor::from_rgb(0, 0, 0),
        max_health: Health::new(3),
        health: Health::new(3),
        step_ms: 250,
        accum_ms: 250,
        ready_for_step: true,
    }
}

#[test]
fn direction_between_neighbors() {
    let origin = CellCoord::new(3, 3);
    assert_eq!(direction_between(origin, CellCoord::new(3, 2)), Some(Direction::North));
    assert_eq!(direction_between(origin, CellCoord::new(4, 3)), Some(Direction::East));
    assert_eq!(direction_between(origin, CellCoord::new(3, 4)), Some(Direction::South));
    assert_eq!(direction_between(origin, CellCoord::new(2, 3)), Some(Direction::West));
    assert_eq!(direction_between(origin, origin), None);
}

#[test]
fn provided_targets_are_cached() {
    let mut movement = Movement::default();

    assert_eq!(movement.planner.prepare_workspace(0, 0, &navigation_stub(0, 0), &[]), 0);
    assert!(movement.planner.targets.is_empty());

    let targets = vec![CellCoord::new(1, 4)];
    assert_eq!(movement.planner.prepare_workspace(3, 4, &navigation_stub(3, 4), &targets), 12);
    assert_eq!(movement.planner.targets, targets);

    let alternate_targets = vec![CellCoord::new(2, 2), CellCoord::new(2, 3)];
    assert_eq!(
        movement.planner.prepare_workspace(4, 3, &navigation_stub(4, 3), &alternate_targets),
        12
    );
    assert_eq!(movement.planner.targets, alternate_targets);
}

#[test]
fn gradient_prefers_lower_distance_neighbor() {
    let planner = CrowdPlanner::new();
    let columns = 3;
    let rows = 3;
    let navigation = navigation_with_distances(
        columns,
        rows,
        vec![
            4, 3, 2, // row 0
            3, 2, 1, // row 1
            2, 1, 0, // row 2
        ],
    );
    let occupancy = OccupancyView::new(occupancy_stub(columns, rows), columns, rows);
    let bug = bug_snapshot_at(CellCoord::new(0, 0));

    let next =
        planner.plan_gradient_step(&bug, &navigation, &occupancy, &mask(columns, rows, |_| false), columns, rows);

    assert_eq!(next, Some(CellCoord::new(0, 1)));
}

#[test]
fn gradient_returns_none_when_all_progress_cells_blocked() {
    let planner = CrowdPlanner::new();
    let columns = 2;
    let rows = 2;
    let navigation = navigation_with_distances(columns, rows, vec![3, 2, 2, 1]);
    let mut occupancy_cells = occupancy_stub(columns, rows);
    set_occupant(&mut occupancy_cells, columns, CellCoord::new(0, 1), BugId::new(99));
    let occupancy = OccupancyView::new(occupancy_cells, columns, rows);
    let bug = bug_snapshot_at(CellCoord::new(0, 0));
    let block_east = mask(columns, rows, |cell: CellCoord| cell == CellCoord::new(1, 0));

    let next = planner.plan_gradient_step(&bug, &navigation, &occupancy, &block_east, columns, rows);

    assert!(next.is_none());
}

#[test]
fn a_cell_is_available_to_its_own_occupant() {
    let mut cells = occupancy_stub(2, 1);
    set_occupant(&mut cells, 2, CellCoord::new(1, 0), BugId::new(4));
    let occupancy = OccupancyView::new(cells, 2, 1);
    assert!(cell_available_for(CellCoord::new(0, 0), BugId::new(1), &occupancy));
    assert!(cell_available_for(CellCoord::new(1, 0), BugId::new(4), &occupancy));
    assert!(!cell_available_for(CellCoord::new(1, 0), BugId::new(1), &occupancy));
}
