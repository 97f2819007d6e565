//! A grid-based raycasting engine over a tile map.
//!
//! The engine walks rays from a viewer's position across a rectangular grid of
//! wall and floor tiles, finds the first wall each ray hits, and projects the
//! hit distance into the height of a vertical screen strip.  All geometry is
//! carried out in fixed-point integer coordinates: one map pixel is `SCALE`
//! sub-pixel units, so grid-line snapping, slope stepping and distances are
//! exact and every loop provably terminates.  A host windowing layer supplies
//! ray directions (from the viewer's facing angle) and draws the columns.

use vstd::prelude::*;

verus! {

/// Fixed-point scale: number of sub-pixel coordinate units per map pixel.
pub const SCALE: i64 = 65536;

/// Upper bound on a map's extent along either axis, in fixed-point units.
pub const COORD_LIMIT: i64 = 134217728;

/// Upper bound on the magnitude of a ray direction component.
pub const DIR_LIMIT: i64 = 1048576;

/// Upper bound on how far a single marching step can carry a coordinate.
pub const STEP_LIMIT: i64 = 281474976710656;

} // verus!

pub mod fan;
pub mod geom;
pub mod grid;
pub mod player;
pub mod project;
pub mod ray;
