//! Fixed-point 2D geometry for an arena game: shape-overlap predicates,
//! movement with boundary containment, and direction helpers.
//!
//! All coordinates are integers counted in fixed-point units, `SCALE` to a
//! map unit, so every predicate is decided exactly and every contract is
//! stated over mathematical integers. Headings, and the cosine and sine of
//! an angle, are counted in millionths, `HEADING_SCALE` to a unit. Where a
//! result has to be rounded to the grid, it is rounded to the nearest unit;
//! a distance is rounded up.
//!
//! Every operation is a function of its arguments alone and keeps no state.

pub mod boundary;
pub mod collision_detection;
pub mod direction;
pub mod error;
pub mod fixed;
pub mod game;
pub mod laws;
pub mod map;
pub mod physics;
pub mod shapes;
