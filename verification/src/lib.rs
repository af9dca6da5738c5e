//! Simulation core of an antigravity racing game.
//!
//! A closed, tilted track is described by a spline, baked into a polyline
//! for arc-length queries, indexed by an octree for spatial lookups, and
//! driven over by vehicles whose physics run once per fixed tick.
//!
//! All geometry is carried in 16.16 fixed-point integers, so every
//! computation has an exact arithmetic meaning that the contracts state.
use vstd::prelude::*;

pub mod math;
pub mod linalg;
pub mod assets;
pub mod octree;
pub mod trig;
pub mod spline;
pub mod vehicle;
pub mod mesh;
pub mod garage;
pub mod state;
pub mod font;

verus! {

} // verus!
