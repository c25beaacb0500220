//! Shared data types: identifiers, coordinates, views, commands and events.

pub mod geometry;
pub mod values;
pub mod time;
pub mod ordering;
pub mod views;
pub mod fields;
pub mod layout;
pub mod messages;
pub mod analytics;
