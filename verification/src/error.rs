//! The ways a geometric computation can fail.

use vstd::prelude::*;

verus! {

/// Why a computation gave no answer.
#[derive(Clone, Copy, Debug, PartialEq, Eq, Structural)]
pub enum GeometryError {
    /// The input has no extent where one is needed: a segment or vector of
    /// length zero, or a polygon with fewer than three vertices.
    DegenerateGeometry,
    /// No position inside the boundary is known along the attempted move.
    BoundaryResolutionFailed,
    /// A computed point lies outside the range of coordinates.
    CoordinateOverflow,
    /// The shape cannot take the part it was given: a probe has to be a
    /// point or a circle.
    UnsupportedShape,
}

} // verus!
