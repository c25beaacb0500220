//! The authoritative world: grids, towers, bugs, projectiles and the command handler.

pub mod grid_math;
pub mod navigation;
pub mod grids;
pub mod geometry;
pub mod towers;
pub mod bugs;
pub mod state;
pub mod placement;
pub mod removal;
pub mod motion;
pub mod combat;
pub mod apply;
pub mod query;
pub mod analytics;
