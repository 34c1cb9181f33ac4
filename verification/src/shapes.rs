//! Points and the primitive shapes built from them.

use vstd::prelude::*;

verus! {

/// A point of the unbounded integer grid. Contracts are stated over grid
/// points; a `Position` is a grid point whose coordinates fit in 32 bits.
pub ghost struct GridPoint {
    pub x: int,
    pub y: int,
}

impl GridPoint {
    /// Both coordinates fit in a `Position`.
    pub open spec fn is_position(self) -> bool {
        &&& i32::MIN <= self.x <= i32::MAX
        &&& i32::MIN <= self.y <= i32::MAX
    }
}

/// A location in fixed-point units.
#[derive(Clone, Copy, Debug, PartialEq, Eq, Structural)]
pub struct Position {
    pub x: i32,
    pub y: i32,
}

impl View for Position {
    type V = GridPoint;

    open spec fn view(&self) -> GridPoint {
        GridPoint { x: self.x as int, y: self.y as int }
    }
}

/// A disc: every point within `radius` of `center`, the rim included.
#[derive(Clone, Copy, Debug, PartialEq, Eq, Structural)]
pub struct Circle {
    pub center: Position,
    pub radius: u32,
}

/// The straight piece between two end points.
#[derive(Clone, Copy, Debug, PartialEq, Eq, Structural)]
pub struct Segment {
    pub start: Position,
    pub end: Position,
}

impl Segment {
    /// The end points coincide, so the segment has no direction.
    pub open spec fn is_degenerate(self) -> bool {
        self.start@ == self.end@
    }
}

/// The grid points of a vertex list, in order.
pub open spec fn grid_points(vertices: Seq<Position>) -> Seq<GridPoint> {
    Seq::new(vertices.len(), |i: int| vertices[i]@)
}

} // verus!
