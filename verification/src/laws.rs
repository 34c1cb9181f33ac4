//! General facts about the overlap predicates, proved from their
//! definitions.

use crate::boundary::{
    contains, first_examined_step, last_inside_step, lemma_path_point_is_position,
    lemma_resolved_position_is_last, path_steps,
};
use crate::collision_detection::{
    circle_polygon_outcome, colliding_points, crossing_at, crossings, dist_sq, distance,
    endpoint_in_circle, point_in_circle, point_in_polygon, segment_circle_collision,
    segment_circle_outcome,
};
use crate::direction::direction_between;
use crate::error::GeometryError;
use crate::fixed::lemma_sqrt_ceil_le;
use crate::map::{moved_position, Category, Entity};
use crate::physics::moved_entity;
use crate::shapes::{grid_points, Circle, GridPoint, Position, Segment};
use vstd::prelude::*;

verus! {

/// A point lies in a circle exactly when its distance from the centre is at
/// most the radius; a point on the rim is in. Rounding the distance up loses
/// nothing: the test agrees with the comparison of the squares.
pub proof fn lemma_point_in_circle_is_distance_test(p: GridPoint, c: Circle)
    ensures
        point_in_circle(p, c) == (distance(p, c.center@) <= c.radius),
        point_in_circle(p, c) == (dist_sq(p, c.center@) <= c.radius * c.radius),
{
    lemma_sqrt_ceil_le(dist_sq(p, c.center@), c.radius as nat);
}

/// A segment with an end point in the circle collides with the circle,
/// whatever the rest of the segment does, and even if it is degenerate.
pub proof fn lemma_endpoint_in_circle_collides(s: Segment, c: Circle)
    requires
        endpoint_in_circle(s, c),
    ensures
        segment_circle_collision(s, c),
        segment_circle_outcome(s, c) == Ok::<bool, GeometryError>(true),
{
}

/// The sequence that starts at element `k` and wraps around to end just
/// before it.
pub open spec fn rotated<T>(s: Seq<T>, k: int) -> Seq<T> {
    s.subrange(k, s.len() as int) + s.subrange(0, k)
}

/// Starting the vertex list one vertex later shifts every edge one place
/// down.
proof fn lemma_crossings_shift(poly: Seq<GridPoint>, p: GridPoint, k: nat)
    requires
        poly.len() >= 2,
        k <= poly.len() - 1,
    ensures
        crossings(rotated(poly, 1), p, k) + (if crossing_at(poly, p, 0) {
            1nat
        } else {
            0nat
        }) == crossings(poly, p, k + 1),
    decreases k,
{
    let rot = rotated(poly, 1);
    if k == 0 {
        assert(crossings(poly, p, 1) == crossings(poly, p, 0) + if crossing_at(poly, p, 0) {
            1nat
        } else {
            0nat
        });
    } else {
        lemma_crossings_shift(poly, p, (k - 1) as nat);
        assert(rot[k - 1] == poly[k as int]);
        assert(crossing_at(rot, p, k - 1) == crossing_at(poly, p, k as int));
    }
}

/// Starting the vertex list one vertex later leaves the number of crossed
/// edges unchanged.
proof fn lemma_crossings_rotate_one(poly: Seq<GridPoint>, p: GridPoint)
    requires
        poly.len() >= 1,
    ensures
        crossings(rotated(poly, 1), p, poly.len()) == crossings(poly, p, poly.len()),
{
    let rot = rotated(poly, 1);
    let n = poly.len();
    if n == 1 {
        assert(rot =~= poly);
    } else {
        lemma_crossings_shift(poly, p, (n - 1) as nat);
        assert(rot.len() == n);
        assert(rot[n - 1] == poly[0]);
        assert(rot[0] == poly[1]);
        assert(crossing_at(rot, p, n - 1) == crossing_at(poly, p, 0));
    }
}

/// Starting the vertex list at any vertex leaves the number of crossed
/// edges unchanged.
proof fn lemma_crossings_rotate(poly: Seq<GridPoint>, p: GridPoint, k: nat)
    requires
        k <= poly.len(),
    ensures
        crossings(rotated(poly, k as int), p, poly.len()) == crossings(poly, p, poly.len()),
    decreases k,
{
    if k == 0 {
        assert(rotated(poly, 0) =~= poly);
    } else {
        lemma_crossings_rotate(poly, p, (k - 1) as nat);
        let before = rotated(poly, k - 1);
        lemma_crossings_rotate_one(before, p);
        assert(rotated(before, 1) =~= rotated(poly, k as int));
    }
}

/// Whether a point is inside a polygon does not depend on the vertex at
/// which the list of vertices starts. This holds of every point, those on
/// an edge included, because the crossing test is decided without rounding.
pub proof fn lemma_point_in_polygon_rotation(p: GridPoint, polygon: Seq<Position>, k: int)
    requires
        0 <= k <= polygon.len(),
    ensures
        point_in_polygon(p, grid_points(rotated(polygon, k))) == point_in_polygon(
            p,
            grid_points(polygon),
        ),
{
    lemma_crossings_rotate(grid_points(polygon), p, k as nat);
    assert(grid_points(rotated(polygon, k)) =~= rotated(grid_points(polygon), k));
}

/// A circle whose centre is inside a polygon collides with it, even if no
/// edge of the polygon touches the circle.
pub proof fn lemma_center_inside_collides(c: Circle, polygon: Seq<Position>)
    requires
        polygon.len() >= 3,
        point_in_polygon(c.center@, grid_points(polygon)),
    ensures
        circle_polygon_outcome(c, polygon) == Ok::<bool, GeometryError>(true),
{
}

/// There is no heading from a position to itself: asking for one is an
/// error, never a heading without a meaning.
pub proof fn lemma_no_direction_to_itself(a: GridPoint)
    ensures
        direction_between(a, a) == Err::<GridPoint, GeometryError>(
            GeometryError::DegenerateGeometry,
        ),
{
}

/// A segment that is not degenerate collides with a circle exactly when the
/// two have a contact point.
pub proof fn lemma_collision_has_contact_point(s: Segment, c: Circle)
    requires
        !s.is_degenerate(),
    ensures
        segment_circle_collision(s, c) <==> colliding_points(s, c).len() > 0,
{
}

/// A moving player ends every tick inside the boundary, whatever its
/// position, heading and speed were, or the tick fails.
pub proof fn lemma_moved_player_is_inside(e: Entity, delta_ms: i32, boundary: Entity, moved: Entity)
    requires
        e.is_moving,
        e.category == Category::Player,
        moved_entity(e, delta_ms, boundary) == Ok::<Entity, GeometryError>(moved),
    ensures
        contains(boundary, moved.position@),
{
    let start = e.position@;
    let target = moved_position(e, delta_ms);
    lemma_resolved_position_is_last(start, target, boundary);
    let k = last_inside_step(boundary, start, target);
    assert(0 <= first_examined_step(start, target) <= k <= path_steps(start, target));
    lemma_path_point_is_position(start, target, k);
}

} // verus!
