use maze_defence::presentation::{
    check_cells_per_tile, format_basis_points, BugHealthPresentation, FrameSimulationBreakdown,
    RenderingError, SceneWall, TileSpacePosition,
};
use maze_defence::settings::{GridSizeArg, GridSizeError, Toggle};
use std::time::Duration;

#[test]
fn tile_space_positions_normalise_zero_steps() {
    let position = TileSpacePosition::new(6, 9, 0);
    assert_eq!(position.steps_per_tile(), 1);
    assert_eq!(position.column_steps(), 6);
    assert_eq!(position.row_steps(), 9);
    assert!(position.is_integer_aligned());

    let fine = TileSpacePosition::from_steps(6, 9, 4);
    assert_eq!(fine.steps_per_tile(), 4);
    assert!(!fine.is_integer_aligned());
    assert!(TileSpacePosition::from_steps(8, 12, 4).is_integer_aligned());
    assert_eq!(TileSpacePosition::from_indices(2, 3), TileSpacePosition::new(2, 3, 1));
}

#[test]
fn descriptors_keep_their_fields() {
    let wall = SceneWall::new(3, 4);
    assert_eq!((wall.column, wall.row), (3, 4));
    let health = BugHealthPresentation::new(2, 5);
    assert_eq!((health.current, health.maximum), (2, 5));
    let breakdown = FrameSimulationBreakdown::new(
        Duration::from_millis(3),
        Duration::from_millis(1),
        Duration::from_millis(2),
    );
    assert_eq!(breakdown.pathfinding, Duration::from_millis(1));
    assert_eq!(breakdown.scene_population, Duration::from_millis(2));
}

#[test]
fn tile_grid_creation_rejects_zero_cells_per_tile_without_panicking() {
    let error = check_cells_per_tile(0).expect_err("zero cells_per_tile must be rejected");
    assert!(matches!(error, RenderingError::InvalidCellsPerTile { cells_per_tile: 0 }));
    assert_eq!(error.message(), "cells_per_tile must be positive (received 0)");
}

#[test]
fn tile_grid_creation_accepts_positive_cells_per_tile() {
    assert_eq!(check_cells_per_tile(4).expect("positive cells_per_tile should succeed"), 4);
    assert_eq!(
        RenderingError::InvalidCellsPerTile { cells_per_tile: 1234 }.message(),
        "cells_per_tile must be positive (received 1234)"
    );
}

#[test]
fn basis_points_render_with_two_decimals() {
    assert_eq!(format_basis_points(8_333), "83.33%");
    assert_eq!(format_basis_points(10_000), "100.00%");
    assert_eq!(format_basis_points(5), "0.05%");
    assert_eq!(format_basis_points(0), "0.00%");
    assert_eq!(format_basis_points(u32::MAX), "42949672.95%");
}

#[test]
fn toggles_report_enabled_state() {
    assert!(Toggle::On.enabled());
    assert!(!Toggle::Off.enabled());
}

#[test]
fn grid_sizes_parse_with_either_separator() {
    assert_eq!(GridSizeArg::parse("12x18").map(GridSizeArg::into_dimensions), Ok((12, 18)));
    assert_eq!(GridSizeArg::parse(" 7 X 3 ").map(GridSizeArg::into_dimensions), Ok((7, 3)));
    assert_eq!(GridSizeArg::parse("+7x3").map(GridSizeArg::into_dimensions), Ok((7, 3)));
}

#[test]
fn grid_size_errors_name_the_faulty_part() {
    assert_eq!(GridSizeArg::parse("12"), Err(GridSizeError::MissingSeparator));
    assert_eq!(GridSizeArg::parse("ax3"), Err(GridSizeError::InvalidWidth));
    assert_eq!(GridSizeArg::parse("3x"), Err(GridSizeError::InvalidHeight));
    assert_eq!(GridSizeArg::parse("3x4x5"), Err(GridSizeError::InvalidHeight));
    assert_eq!(GridSizeArg::parse("0x4"), Err(GridSizeError::NotPositive));
    assert_eq!(GridSizeArg::parse("4294967296x4"), Err(GridSizeError::InvalidWidth));
}

#[test]
fn tile_space_position_constructors_agree() {
    assert_eq!(TileSpacePosition::new(4, 5, 0), TileSpacePosition::new(4, 5, 1));
    assert_eq!(TileSpacePosition::from_steps(4, 5, 3), TileSpacePosition::new(4, 5, 3));
    assert_eq!(TileSpacePosition::from_steps(4, 5, 0), TileSpacePosition::from_indices(4, 5));
    assert_ne!(TileSpacePosition::new(4, 5, 2), TileSpacePosition::from_indices(4, 5));
}

#[test]
fn grid_size_errors_have_messages() {
    assert_eq!(GridSizeError::MissingSeparator.message(), "expected format WIDTHxHEIGHT");
    assert_eq!(GridSizeError::InvalidWidth.message(), "invalid width");
    assert_eq!(GridSizeError::InvalidHeight.message(), "invalid height");
    assert_eq!(GridSizeError::NotPositive.message(), "grid dimensions must be positive");
}
