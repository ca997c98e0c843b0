//! A deformable cloth mesh simulated with Verlet integration.
//!
//! Point masses live in an arena of nodes; unary rules (gravity, wind,
//! impulses, ground clamps) and pairwise distance rules connect them.
//! Coordinates are fixed-point integers: one world unit is `SCALE`
//! coordinate units, and every coordinate is kept within
//! `[-COORD_LIMIT, COORD_LIMIT]`.

pub mod cloth;
pub mod nac;
pub mod num;
pub mod rng;
pub mod verlet;
