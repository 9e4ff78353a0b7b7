//! Procedural dungeon and terrain generation on a fixed 80x50 tile grid.
//!
//! Every generator runs to completion and returns the ordered list of labelled
//! grid snapshots that it recorded on the way.

// The grid, its geometry, and the record of a run.
pub mod grid;
pub mod rect;
pub mod line;
pub mod frames;
pub mod rng;

// The grid as a graph: connectivity, distances, routes.
pub mod graph;
pub mod distance;
pub mod path;
pub mod nearest;
pub mod reach;

// What the generators share.
pub mod tunnel;
pub mod sorting;
pub mod prefab;
pub mod noise;

// The generators.
pub mod rooms;
pub mod bsp;
pub mod cellular;
pub mod drunkard;
pub mod dla;
pub mod dla_symmetry;
pub mod dla_erosion;
pub mod voronoi;
pub mod combination;
pub mod perlin;
pub mod overworld;
pub mod noisezoom;
pub mod double_noise;
pub mod not_a_trap;
pub mod still_not_a_trap;
pub mod unreachable;
pub mod ending_right;
pub mod hot_rooms;
