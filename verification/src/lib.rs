//! A sparse Game-of-Life core with a pannable chunk viewport.
//!
//! The world is a fixed rectangle of cells; only the currently alive cells
//! are indexed, so a generation step costs time proportional to the number
//! of live cells rather than to the whole area.  A bounded chunk viewport
//! can be panned across the world to inspect a local window.

pub mod design_world;
pub mod design_world_display;
pub mod grid;
pub mod tile;
pub mod world;
pub mod world_display;
