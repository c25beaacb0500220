//! Pure systems that read world snapshots and propose commands.

pub mod tower_targeting;
pub mod tower_combat;
pub mod spawning;
pub mod builder;
pub mod movement;
pub mod wave_sampling;
pub mod analytics;
pub mod bootstrap;
pub mod rounds;
pub mod wave_schedule;
pub mod feedback;
