//! Grid, area, pitch and navigation model of a camping-resort simulation.
//!
//! Everything here works on plain values: integer grid positions, sets of
//! tiles, small enums. The engine that owns the entities lives elsewhere and
//! talks to this crate through those values.

pub mod area;
pub mod area_laws;
pub mod borders;
pub mod buildable;
pub mod connectivity;
pub mod geometry;
pub mod graph;
pub mod grid_box;
pub mod library;
pub mod line;
pub mod metric;
pub mod nav;
pub mod nav_category;
pub mod nav_laws;
pub mod pathfind;
pub mod pitch;
pub mod preview;
pub mod route;
pub mod sides;
pub mod text;
pub mod tile;
pub mod tile_set;
pub mod tooltip;
pub mod unify;
pub mod world_info;
