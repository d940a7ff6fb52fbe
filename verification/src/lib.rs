//! Synthesis of individual tree positions for forest-inventory stands.
//!
//! The crate takes stand polygons with per-species strata (stem count, basal
//! area, mean height), estimates a sampling spacing from the target density,
//! lays a jittered hexagonal lattice over the polygon, keeps the points that
//! fall inside it, and clips stands to a query rectangle while preserving
//! per-hectare density.  All geometry is carried in fixed-point integer
//! coordinates (thousandths of a unit), so every step of the pipeline is
//! checked by the verifier.

pub mod clip;
pub mod compartment;
pub mod coords;
pub mod decimal;
pub mod errors;
pub mod geo_tree;
pub mod geometry_utils;
pub mod jittered_hexagonal_sampling;
pub mod math;
pub mod parse;
pub mod projection;
mod rng;
pub mod schema;
pub mod shared_buffer;
pub mod stand;
pub mod stand_trees;
pub mod tiles;
pub mod tree;
pub mod tree_stand_data;
