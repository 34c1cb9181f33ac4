//! Entities of the arena: what they are, how they move, and whether they
//! are inside the boundary.

use crate::collision_detection::{
    point_circle_collision, point_in_circle, point_polygon_colision, point_polygon_outcome,
};
use crate::error::GeometryError;
use crate::fixed::{
    compute_round_div, lemma_round_div_monotone, lemma_round_div_multiple, round_div,
    HEADING_SCALE,
};
use crate::shapes::{Circle, GridPoint, Position};
use vstd::prelude::*;

verus! {

/// The number of time steps in a second: a time step is a millisecond.
pub const STEPS_PER_SECOND: i64 = 1000;

/// What an entity is in the game.
#[derive(Clone, Copy, Debug, PartialEq, Eq, Structural)]
pub enum Category {
    Player,
    Obstacle,
    Projectile,
    Zone,
}

/// A heading in millionths. A heading of length `HEADING_SCALE` is a unit
/// vector.
#[derive(Clone, Copy, Debug, PartialEq, Eq, Structural)]
pub struct Direction {
    pub x: i32,
    pub y: i32,
}

impl View for Direction {
    type V = GridPoint;

    open spec fn view(&self) -> GridPoint {
        GridPoint { x: self.x as int, y: self.y as int }
    }
}

/// The outline of an entity. A point and a circle sit at the entity's
/// position; a segment and a polygon carry their own vertices. A polygon is
/// closed by an edge from its last vertex to its first.
#[derive(Clone, Debug, PartialEq, Eq)]
pub enum Shape {
    Point,
    Circle { radius: u32 },
    Segment { start: Position, end: Position },
    Polygon { vertices: Vec<Position> },
}

/// One entity of a snapshot.
#[derive(Clone, Debug, PartialEq, Eq)]
pub struct Entity {
    pub id: u64,
    pub category: Category,
    pub shape: Shape,
    pub position: Position,
    pub direction: Direction,
    /// Units per second.
    pub speed: u32,
    pub is_moving: bool,
}

/// The nearest coordinate to `v` that a `Position` can hold.
pub open spec fn clamp_coordinate(v: int) -> int {
    if v < i32::MIN {
        i32::MIN as int
    } else if v > i32::MAX {
        i32::MAX as int
    } else {
        v
    }
}

/// How far an entity travels along one axis: the axis' share of a unit
/// heading, times the speed, times the elapsed time, rounded to the grid.
/// Time that runs backwards takes the entity backwards.
pub open spec fn displacement(heading: int, speed: int, delta_ms: int) -> int {
    round_div(heading * speed * delta_ms, HEADING_SCALE * STEPS_PER_SECOND)
}

/// Where an entity stands after `delta_ms` milliseconds: where it stood, if
/// it is not moving; otherwise `position + direction * speed * time`, held
/// to the range of coordinates.
pub open spec fn moved_position(e: Entity, delta_ms: i32) -> GridPoint {
    if e.is_moving {
        GridPoint {
            x: clamp_coordinate(e.position.x + displacement(e.direction.x as int, e.speed as int, delta_ms as int)),
            y: clamp_coordinate(e.position.y + displacement(e.direction.y as int, e.speed as int, delta_ms as int)),
        }
    } else {
        e.position@
    }
}

/// Whether the boundary encloses `p`. Only a circle and a polygon enclose
/// anything: a boundary of another shape, or a polygon with fewer than three
/// vertices, is degenerate.
pub open spec fn inside_boundary(p: GridPoint, boundary: Entity) -> Result<bool, GeometryError> {
    match boundary.shape {
        Shape::Circle { radius } => Ok(
            point_in_circle(p, Circle { center: boundary.position, radius }),
        ),
        Shape::Polygon { vertices } => point_polygon_outcome(p, vertices@),
        _ => Err(GeometryError::DegenerateGeometry),
    }
}

/// Computes one coordinate after a move.
fn moved_coordinate(from: i32, heading: i32, speed: u32, delta_ms: i32) -> (to: i32)
    ensures
        to == clamp_coordinate(from + displacement(heading as int, speed as int, delta_ms as int)),
{
    let h: i128 = heading as i128;
    let s: i128 = speed as i128;
    let t: i128 = delta_ms as i128;
    assert(-0x8000_0000_0000_0000 <= h * s <= 0x8000_0000_0000_0000) by (nonlinear_arith)
        requires
            -0x8000_0000 <= h <= 0x8000_0000,
            0 <= s <= 0x1_0000_0000,
    ;
    let hs: i128 = h * s;
    assert(-0x4000_0000_0000_0000_0000_0000 <= hs * t <= 0x4000_0000_0000_0000_0000_0000)
        by (nonlinear_arith)
        requires
            -0x8000_0000_0000_0000 <= hs <= 0x8000_0000_0000_0000,
            -0x8000_0000 <= t <= 0x8000_0000,
    ;
    let travelled: i128 = compute_round_div(hs * t, (HEADING_SCALE * STEPS_PER_SECOND) as i128);
    proof {
        let b = HEADING_SCALE * STEPS_PER_SECOND;
        lemma_round_div_multiple(0x4000_0000_0000_0000_0000_0000, b);
        lemma_round_div_multiple(-0x4000_0000_0000_0000_0000_0000, b);
        lemma_round_div_monotone(hs * t, 0x4000_0000_0000_0000_0000_0000 * b, b);
        lemma_round_div_monotone((-0x4000_0000_0000_0000_0000_0000) * b, hs * t, b);
    }
    let target: i128 = from as i128 + travelled;
    if target < -0x8000_0000 {
        -0x8000_0000
    } else if target > 0x7FFF_FFFF {
        0x7FFF_FFFF
    } else {
        target as i32
    }
}

impl Entity {
    /// Moves the entity by what it travels in `delta_ms` milliseconds. An
    /// entity that is not moving stays where it is.
    pub fn move_entity(&mut self, delta_ms: i32)
        ensures
            final(self).position@ == moved_position(*old(self), delta_ms),
            *final(self) == (Entity { position: final(self).position, ..*old(self) }),
    {
        if self.is_moving {
            let x = moved_coordinate(self.position.x, self.direction.x, self.speed, delta_ms);
            let y = moved_coordinate(self.position.y, self.direction.y, self.speed, delta_ms);
            self.position = Position { x, y };
        }
    }

    /// Decides whether the entity's position lies inside the boundary.
    pub fn is_inside_map(&self, boundary: &Entity) -> (r: Result<bool, GeometryError>)
        ensures
            r == inside_boundary(self.position@, *boundary),
    {
        position_inside(&self.position, boundary)
    }
}

/// Decides whether a position lies inside the boundary.
pub fn position_inside(position: &Position, boundary: &Entity) -> (r: Result<bool, GeometryError>)
    ensures
        r == inside_boundary(position@, *boundary),
{
    match &boundary.shape {
        Shape::Circle { radius } => {
            let circle = Circle { center: boundary.position, radius: *radius };
            Ok(point_circle_collision(position, &circle))
        },
        Shape::Polygon { vertices } => point_polygon_colision(position, vertices),
        _ => Err(GeometryError::DegenerateGeometry),
    }
}

} // verus!
