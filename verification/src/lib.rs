//! Verified simulation rules for the Maze Defence tower-defence game.
//!
//! The crate holds the deterministic core of the game: the shared data types
//! that systems exchange, the authoritative world and its command handler, the
//! pure systems that plan bug movement, tower targeting and firing, the frame
//! driver that runs them, and the compact layout transfer format.

pub mod core_types;
pub mod world;
pub mod systems;
pub mod transfer;
pub mod presentation;
pub mod settings;
pub mod simulation;
