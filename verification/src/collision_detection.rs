//! Overlap predicates between points, circles, segments and polygons.
//!
//! Each predicate is a specification function over grid points, and each
//! executable function is proved to compute exactly that predicate.

use crate::error::GeometryError;
use crate::fixed::{
    compute_round_div, compute_sqrt_ceil, is_sqrt_ceil, lemma_round_div_range, lemma_sqrt_ceil_le,
    round_div, sqrt_ceil,
};
use crate::shapes::{grid_points, Circle, GridPoint, Position, Segment};
use vstd::prelude::*;

verus! {

/// Slack of the on-segment test, in fixed-point units: a tenth of a map unit.
/// It is absolute, so it has to follow any change of the unit.
pub const SEGMENT_TOLERANCE: u64 = 100;

/// The squared Euclidean distance between two grid points.
pub open spec fn dist_sq(a: GridPoint, b: GridPoint) -> nat {
    ((a.x - b.x) * (a.x - b.x) + (a.y - b.y) * (a.y - b.y)) as nat
}

/// The Euclidean distance between two grid points, rounded up to a whole
/// number of units.
pub open spec fn distance(a: GridPoint, b: GridPoint) -> nat {
    sqrt_ceil(dist_sq(a, b))
}

/// The point lies in the disc, the rim included.
pub open spec fn point_in_circle(p: GridPoint, c: Circle) -> bool {
    distance(p, c.center@) <= c.radius
}

/// The two discs share a point.
pub open spec fn circles_collide(c1: Circle, c2: Circle) -> bool {
    distance(c1.center@, c2.center@) <= c1.radius + c2.radius
}

/// The way through `p` between the end points is longer than the direct way
/// by no more than the tolerance.
pub open spec fn point_on_segment(s: Segment, p: GridPoint) -> bool {
    let through = distance(p, s.start@) + distance(p, s.end@);
    let direct = distance(s.start@, s.end@);
    direct - SEGMENT_TOLERANCE <= through <= direct + SEGMENT_TOLERANCE
}

/// The point of the line through the end points of `s` that is closest to
/// `p`, rounded to the grid: `start + t * (end - start)` with
/// `t = ((p - start) . (end - start)) / |end - start|^2`. The parameter `t`
/// is not confined to the segment. Meant for a segment that is not
/// degenerate.
pub open spec fn line_projection(s: Segment, p: GridPoint) -> GridPoint
    recommends
        !s.is_degenerate(),
{
    let dx = s.end.x - s.start.x;
    let dy = s.end.y - s.start.y;
    let dot = (p.x - s.start.x) * dx + (p.y - s.start.y) * dy;
    let len_sq = dx * dx + dy * dy;
    GridPoint {
        x: s.start.x + round_div(dot * dx, len_sq),
        y: s.start.y + round_div(dot * dy, len_sq),
    }
}

/// Where `closest_point_on_line` succeeds, and how it fails.
pub open spec fn closest_point_outcome(s: Segment, p: GridPoint) -> Result<
    GridPoint,
    GeometryError,
> {
    if s.is_degenerate() {
        Err(GeometryError::DegenerateGeometry)
    } else if !line_projection(s, p).is_position() {
        Err(GeometryError::CoordinateOverflow)
    } else {
        Ok(line_projection(s, p))
    }
}

/// One of the end points of the segment lies in the circle.
pub open spec fn endpoint_in_circle(s: Segment, c: Circle) -> bool {
    point_in_circle(s.start@, c) || point_in_circle(s.end@, c)
}

/// The point of the segment's line closest to the centre of the circle lies
/// both on the segment and in the circle. Meant for a segment that is not
/// degenerate.
pub open spec fn projection_in_circle(s: Segment, c: Circle) -> bool
    recommends
        !s.is_degenerate(),
{
    let q = line_projection(s, c.center@);
    point_on_segment(s, q) && point_in_circle(q, c)
}

/// The segment touches the circle: an end point lies in it, or the closest
/// point of the segment's line does and lies on the segment.
pub open spec fn segment_circle_collision(s: Segment, c: Circle) -> bool {
    endpoint_in_circle(s, c) || (!s.is_degenerate() && projection_in_circle(s, c))
}

/// What `line_circle_collision` returns: a segment that touches the circle
/// is reported even where it is degenerate; a degenerate one with no end
/// point in the circle has no closest point to examine, and is an error.
pub open spec fn segment_circle_outcome(s: Segment, c: Circle) -> Result<bool, GeometryError> {
    if segment_circle_collision(s, c) {
        Ok(true)
    } else if s.is_degenerate() {
        Err(GeometryError::DegenerateGeometry)
    } else {
        Ok(false)
    }
}

/// The contact points of a segment and a circle: the start if it lies in the
/// circle, then the end if it does, then the closest point of the segment's
/// line if it lies on the segment and in the circle. Meant for a segment that
/// is not degenerate.
pub open spec fn colliding_points(s: Segment, c: Circle) -> Seq<GridPoint>
    recommends
        !s.is_degenerate(),
{
    let first = if point_in_circle(s.start@, c) {
        seq![s.start@]
    } else {
        Seq::<GridPoint>::empty()
    };
    let second = if point_in_circle(s.end@, c) {
        seq![s.end@]
    } else {
        Seq::<GridPoint>::empty()
    };
    let third = if projection_in_circle(s, c) {
        seq![line_projection(s, c.center@)]
    } else {
        Seq::<GridPoint>::empty()
    };
    first + second + third
}

/// What `get_colliding_points_between_line_and_circle` returns. A
/// degenerate segment is an error. So is a closest point that counts as a
/// contact and has no `Position`.
pub open spec fn colliding_points_outcome(s: Segment, c: Circle) -> Result<
    Seq<GridPoint>,
    GeometryError,
> {
    if s.is_degenerate() {
        Err(GeometryError::DegenerateGeometry)
    } else if projection_in_circle(s, c) && !line_projection(s, c.center@).is_position() {
        Err(GeometryError::CoordinateOverflow)
    } else {
        Ok(colliding_points(s, c))
    }
}

/// The index after `i` on a cycle of `n`.
pub open spec fn next_index(i: int, n: int) -> int {
    if i + 1 == n {
        0
    } else {
        i + 1
    }
}

/// The edge from `a` to `b` crosses the ray that leaves `p` towards larger
/// `x`: exactly one end has its `y` at or above that of `p`, and `p.x` is
/// less than the `x` at which the edge passes the height of `p`, that is
/// `a.x + (b.x - a.x) * (p.y - a.y) / (b.y - a.y)`, compared without
/// rounding.
pub open spec fn edge_crosses_ray(a: GridPoint, b: GridPoint, p: GridPoint) -> bool {
    &&& (a.y >= p.y && b.y < p.y) || (a.y < p.y && b.y >= p.y)
    &&& if b.y > a.y {
        (p.x - a.x) * (b.y - a.y) < (b.x - a.x) * (p.y - a.y)
    } else {
        (p.x - a.x) * (b.y - a.y) > (b.x - a.x) * (p.y - a.y)
    }
}

/// Edge `i` of the closed polygon crosses the ray from `p`.
pub open spec fn crossing_at(poly: Seq<GridPoint>, p: GridPoint, i: int) -> bool {
    edge_crosses_ray(poly[i], poly[next_index(i, poly.len() as int)], p)
}

/// How many of the first `k` edges of the closed polygon cross the ray from
/// `p`.
pub open spec fn crossings(poly: Seq<GridPoint>, p: GridPoint, k: nat) -> nat
    decreases k,
{
    if k == 0 {
        0
    } else {
        crossings(poly, p, (k - 1) as nat) + if crossing_at(poly, p, k - 1) {
            1nat
        } else {
            0nat
        }
    }
}

/// The crossing-number test: `p` is inside when the ray from it crosses an
/// odd number of edges.
pub open spec fn point_in_polygon(p: GridPoint, poly: Seq<GridPoint>) -> bool {
    crossings(poly, p, poly.len()) % 2 == 1
}

/// What `point_polygon_colision` returns: fewer than three vertices bound
/// no area.
pub open spec fn point_polygon_outcome(p: GridPoint, poly: Seq<Position>) -> Result<
    bool,
    GeometryError,
> {
    if poly.len() < 3 {
        Err(GeometryError::DegenerateGeometry)
    } else {
        Ok(point_in_polygon(p, grid_points(poly)))
    }
}

/// Edge `i` of the closed polygon: from vertex `i` to the next one, the
/// last edge leading back to the first vertex.
pub open spec fn polygon_edge(poly: Seq<Position>, i: int) -> Segment {
    Segment { start: poly[i], end: poly[next_index(i, poly.len() as int)] }
}

/// Some edge of the polygon touches the circle.
pub open spec fn circle_touches_edge(c: Circle, poly: Seq<Position>) -> bool {
    exists|i: int| 0 <= i < poly.len() && segment_circle_collision(#[trigger] polygon_edge(poly, i), c)
}

/// Some edge of the polygon joins a vertex to itself.
pub open spec fn has_degenerate_edge(poly: Seq<Position>) -> bool {
    exists|i: int| 0 <= i < poly.len() && (#[trigger] polygon_edge(poly, i)).is_degenerate()
}

/// The circle and the polygon overlap: an edge touches the circle, or the
/// centre lies inside the polygon, which covers a circle that lies wholly
/// inside.
pub open spec fn circle_polygon_overlap(c: Circle, poly: Seq<Position>) -> bool {
    circle_touches_edge(c, poly) || point_in_polygon(c.center@, grid_points(poly))
}

/// What `circle_polygon_collision` returns. An overlap is reported wherever
/// there is one. Without one, the answer is `false` only if every edge could
/// be examined.
pub open spec fn circle_polygon_outcome(c: Circle, poly: Seq<Position>) -> Result<
    bool,
    GeometryError,
> {
    if poly.len() < 3 {
        Err(GeometryError::DegenerateGeometry)
    } else if circle_polygon_overlap(c, poly) {
        Ok(true)
    } else if has_degenerate_edge(poly) {
        Err(GeometryError::DegenerateGeometry)
    } else {
        Ok(false)
    }
}

/// A point with room for coordinates computed beyond the range of a
/// `Position`.
#[derive(Clone, Copy)]
pub struct WidePoint {
    pub x: i64,
    pub y: i64,
}

impl View for WidePoint {
    type V = GridPoint;

    open spec fn view(&self) -> GridPoint {
        GridPoint { x: self.x as int, y: self.y as int }
    }
}

impl WidePoint {
    /// The coordinates are small enough for squared distances to be computed.
    pub open spec fn in_reach(self) -> bool {
        &&& -0x100_0000_0000 <= self.x <= 0x100_0000_0000
        &&& -0x100_0000_0000 <= self.y <= 0x100_0000_0000
    }
}

/// The position as a wide point.
pub(crate) fn widen(p: &Position) -> (w: WidePoint)
    ensures
        w@ == p@,
        w.in_reach(),
{
    WidePoint { x: p.x as i64, y: p.y as i64 }
}

/// Computes the squared distance between two wide points.
pub(crate) fn wide_dist_sq(a: WidePoint, b: WidePoint) -> (d: u128)
    requires
        a.in_reach(),
        b.in_reach(),
    ensures
        d == dist_sq(a@, b@),
        d <= 0x8_0000_0000_0000_0000_0000,
{
    let dx: i128 = a.x as i128 - b.x as i128;
    let dy: i128 = a.y as i128 - b.y as i128;
    assert(0 <= dx * dx <= 0x4_0000_0000_0000_0000_0000) by (nonlinear_arith)
        requires
            -0x200_0000_0000 <= dx <= 0x200_0000_0000,
    ;
    assert(0 <= dy * dy <= 0x4_0000_0000_0000_0000_0000) by (nonlinear_arith)
        requires
            -0x200_0000_0000 <= dy <= 0x200_0000_0000,
    ;
    (dx * dx + dy * dy) as u128
}

/// Computes the distance between two wide points, rounded up.
pub(crate) fn wide_distance(a: WidePoint, b: WidePoint) -> (d: u128)
    requires
        a.in_reach(),
        b.in_reach(),
    ensures
        d == distance(a@, b@),
        d <= 0x400_0000_0000,
{
    let sq: u128 = wide_dist_sq(a, b);
    let root: u128 = compute_sqrt_ceil(sq);
    assert(root <= 0x400_0000_0000) by (nonlinear_arith)
        requires
            is_sqrt_ceil(sq as nat, root as nat),
            sq <= 0x8_0000_0000_0000_0000_0000,
    ;
    root
}

/// Decides whether a wide point lies in a circle, by comparing squares.
pub(crate) fn wide_in_circle(p: WidePoint, circle: &Circle) -> (inside: bool)
    requires
        p.in_reach(),
    ensures
        inside == point_in_circle(p@, *circle),
{
    let sq: u128 = wide_dist_sq(p, widen(&circle.center));
    let r: u128 = circle.radius as u128;
    assert(r * r <= 0xFFFF_FFFF_FFFF_FFFF) by (nonlinear_arith)
        requires
            r <= 0xFFFF_FFFF,
    ;
    proof {
        lemma_sqrt_ceil_le(sq as nat, r as nat);
    }
    sq <= r * r
}

/// Decides whether a wide point lies on a segment, up to the tolerance.
pub(crate) fn wide_on_segment(line: &Segment, p: WidePoint) -> (on: bool)
    requires
        p.in_reach(),
    ensures
        on == point_on_segment(*line, p@),
{
    let d1: u128 = wide_distance(p, widen(&line.start));
    let d2: u128 = wide_distance(p, widen(&line.end));
    let direct: u128 = wide_distance(widen(&line.start), widen(&line.end));
    let tolerance: u128 = SEGMENT_TOLERANCE as u128;
    d1 + d2 + tolerance >= direct && d1 + d2 <= direct + tolerance
}

/// A product is bounded by the size of one factor times a bound on the other.
proof fn lemma_product_bound(k: int, t: int, b: int)
    requires
        -b <= t <= b,
    ensures
        -(vstd::math::abs(k) * b) <= k * t <= vstd::math::abs(k) * b,
{
    assert(-(vstd::math::abs(k) * b) <= k * t <= vstd::math::abs(k) * b) by (nonlinear_arith)
        requires
            -b <= t <= b,
            vstd::math::abs(k) == if k < 0 {
                -k
            } else {
                k
            },
    ;
}

/// The projection of `p` moves away from the start of the segment by no
/// more, in either coordinate, than `p` is away from it in both together.
proof fn lemma_projection_offset(px: int, py: int, dx: int, dy: int)
    requires
        dx != 0 || dy != 0,
    ensures
        dx * dx + dy * dy > 0,
        -(vstd::math::abs(px) + vstd::math::abs(py)) <= round_div(
            (px * dx + py * dy) * dx,
            dx * dx + dy * dy,
        ) <= vstd::math::abs(px) + vstd::math::abs(py),
        -(vstd::math::abs(px) + vstd::math::abs(py)) <= round_div(
            (px * dx + py * dy) * dy,
            dx * dx + dy * dy,
        ) <= vstd::math::abs(px) + vstd::math::abs(py),
{
    let len_sq = dx * dx + dy * dy;
    let ax = vstd::math::abs(px) as int;
    let ay = vstd::math::abs(py) as int;
    assert(len_sq > 0 && 0 <= dx * dx <= len_sq && 0 <= dy * dy <= len_sq && -len_sq <= dx * dy
        <= len_sq) by (nonlinear_arith)
        requires
            dx != 0 || dy != 0,
            len_sq == dx * dx + dy * dy,
    ;
    lemma_product_bound(px, dx * dx, len_sq);
    lemma_product_bound(py, dx * dy, len_sq);
    lemma_product_bound(px, dx * dy, len_sq);
    lemma_product_bound(py, dy * dy, len_sq);
    assert((px * dx + py * dy) * dx == px * (dx * dx) + py * (dx * dy)) by (nonlinear_arith);
    assert((px * dx + py * dy) * dy == px * (dx * dy) + py * (dy * dy)) by (nonlinear_arith);
    assert((ax + ay) * len_sq == ax * len_sq + ay * len_sq) by (nonlinear_arith);
    lemma_round_div_range((px * dx + py * dy) * dx, len_sq, ax + ay);
    lemma_round_div_range((px * dx + py * dy) * dy, len_sq, ax + ay);
}

/// Projects a position onto the line through the end points of a segment.
pub(crate) fn project_onto_line(line: &Segment, point: &Position) -> (w: WidePoint)
    requires
        !line.is_degenerate(),
    ensures
        w@ == line_projection(*line, point@),
        w.in_reach(),
{
    let dx: i128 = line.end.x as i128 - line.start.x as i128;
    let dy: i128 = line.end.y as i128 - line.start.y as i128;
    let px: i128 = point.x as i128 - line.start.x as i128;
    let py: i128 = point.y as i128 - line.start.y as i128;
    proof {
        lemma_projection_offset(px as int, py as int, dx as int, dy as int);
        lemma_product_range(px as int, dx as int, 0x1_0000_0000, 0x1_0000_0000);
        lemma_product_range(py as int, dy as int, 0x1_0000_0000, 0x1_0000_0000);
        lemma_product_range(dx as int, dx as int, 0x1_0000_0000, 0x1_0000_0000);
        lemma_product_range(dy as int, dy as int, 0x1_0000_0000, 0x1_0000_0000);
    }
    let dot: i128 = px * dx + py * dy;
    let len_sq: i128 = dx * dx + dy * dy;
    proof {
        lemma_product_range(dot as int, dx as int, 0x2_0000_0000_0000_0000, 0x1_0000_0000);
        lemma_product_range(dot as int, dy as int, 0x2_0000_0000_0000_0000, 0x1_0000_0000);
    }
    let off_x: i128 = compute_round_div(dot * dx, len_sq);
    let off_y: i128 = compute_round_div(dot * dy, len_sq);
    WidePoint { x: (line.start.x as i128 + off_x) as i64, y: (line.start.y as i128 + off_y) as i64 }
}

/// The product of two integers of sizes up to `m` and `n` has size up to
/// `m * n`.
proof fn lemma_product_range(a: int, b: int, m: int, n: int)
    requires
        -m <= a <= m,
        -n <= b <= n,
    ensures
        -(m * n) <= a * b <= m * n,
{
    assert(-(m * n) <= a * b <= m * n) by (nonlinear_arith)
        requires
            -m <= a <= m,
            -n <= b <= n,
    ;
}

/// Finds the point of the line through a segment's end points that is
/// closest to `point`. Fails on a segment of length zero, and where the
/// closest point lies outside the range of coordinates.
pub fn closest_point_on_line(line: &Segment, point: &Position) -> (r: Result<
    Position,
    GeometryError,
>)
    ensures
        match r {
            Ok(q) => closest_point_outcome(*line, point@) == Ok::<GridPoint, GeometryError>(q@),
            Err(e) => closest_point_outcome(*line, point@) == Err::<GridPoint, GeometryError>(e),
        },
{
    if line.start.x == line.end.x && line.start.y == line.end.y {
        return Err(GeometryError::DegenerateGeometry);
    }
    let w = project_onto_line(line, point);
    match narrow(w) {
        Some(q) => Ok(q),
        None => Err(GeometryError::CoordinateOverflow),
    }
}

/// Turns a wide point into a position, where it is one.
pub(crate) fn narrow(w: WidePoint) -> (r: Option<Position>)
    ensures
        match r {
            Some(q) => q@ == w@,
            None => !w@.is_position(),
        },
{
    if w.x < -0x8000_0000 || w.x > 0x7FFF_FFFF || w.y < -0x8000_0000 || w.y > 0x7FFF_FFFF {
        None
    } else {
        Some(Position { x: w.x as i32, y: w.y as i32 })
    }
}

/// Computes the distance between two positions, rounded up to whole units.
pub fn calculate_distance(a: &Position, b: &Position) -> (d: u64)
    ensures
        d == distance(a@, b@),
{
    let d: u128 = wide_distance(widen(a), widen(b));
    d as u64
}

/// Decides whether a point lies in a circle, the rim included.
pub fn point_circle_collision(point: &Position, circle: &Circle) -> (inside: bool)
    ensures
        inside == point_in_circle(point@, *circle),
{
    wide_in_circle(widen(point), circle)
}

/// Decides whether two circles share a point.
pub fn circle_circle_collision(circle_1: &Circle, circle_2: &Circle) -> (hit: bool)
    ensures
        hit == circles_collide(*circle_1, *circle_2),
{
    let sq: u128 = wide_dist_sq(widen(&circle_1.center), widen(&circle_2.center));
    let reach: u128 = circle_1.radius as u128 + circle_2.radius as u128;
    assert(reach * reach <= 0x4_0000_0000_0000_0000) by (nonlinear_arith)
        requires
            reach <= 0x2_0000_0000,
    ;
    proof {
        lemma_sqrt_ceil_le(sq as nat, reach as nat);
    }
    sq <= reach * reach
}

/// Decides whether a point lies on a segment, up to the tolerance.
pub fn line_point_colision(line: &Segment, point: &Position) -> (on: bool)
    ensures
        on == point_on_segment(*line, point@),
{
    wide_on_segment(line, widen(point))
}

/// Decides whether a segment touches a circle.
pub fn line_circle_collision(line: &Segment, circle: &Circle) -> (r: Result<bool, GeometryError>)
    ensures
        r == segment_circle_outcome(*line, *circle),
{
    let inside_1 = point_circle_collision(&line.start, circle);
    let inside_2 = point_circle_collision(&line.end, circle);
    if inside_1 || inside_2 {
        return Ok(true);
    }
    if line.start.x == line.end.x && line.start.y == line.end.y {
        return Err(GeometryError::DegenerateGeometry);
    }
    let closest = project_onto_line(line, &circle.center);
    let on_line = wide_on_segment(line, closest);
    if !on_line {
        return Ok(false);
    }
    Ok(wide_in_circle(closest, circle))
}

/// Lists the points in which a segment touches a circle: the end points
/// that lie in the circle, start first, then the closest point of the
/// segment's line to the centre where it lies on the segment and in the
/// circle.
pub fn get_colliding_points_between_line_and_circle(line: &Segment, circle: &Circle) -> (r: Result<
    Vec<Position>,
    GeometryError,
>)
    ensures
        match r {
            Ok(points) => colliding_points_outcome(*line, *circle) == Ok::<
                Seq<GridPoint>,
                GeometryError,
            >(grid_points(points@)),
            Err(e) => colliding_points_outcome(*line, *circle) == Err::<
                Seq<GridPoint>,
                GeometryError,
            >(e),
        },
{
    if line.start.x == line.end.x && line.start.y == line.end.y {
        return Err(GeometryError::DegenerateGeometry);
    }
    let mut collided_points: Vec<Position> = Vec::new();
    if point_circle_collision(&line.start, circle) {
        collided_points.push(line.start);
    }
    if point_circle_collision(&line.end, circle) {
        collided_points.push(line.end);
    }
    let closest = project_onto_line(line, &circle.center);
    if wide_on_segment(line, closest) && wide_in_circle(closest, circle) {
        match narrow(closest) {
            Some(q) => {
                collided_points.push(q);
            },
            None => {
                return Err(GeometryError::CoordinateOverflow);
            },
        }
    }
    assert(grid_points(collided_points@) =~= colliding_points(*line, *circle));
    Ok(collided_points)
}

/// Decides whether the edge from `a` to `b` crosses the ray from `p`.
fn edge_crossing(a: &Position, b: &Position, p: &Position) -> (crosses: bool)
    ensures
        crosses == edge_crosses_ray(a@, b@, p@),
{
    if (a.y >= p.y && b.y < p.y) || (a.y < p.y && b.y >= p.y) {
        let px: i128 = p.x as i128 - a.x as i128;
        let py: i128 = p.y as i128 - a.y as i128;
        let dx: i128 = b.x as i128 - a.x as i128;
        let dy: i128 = b.y as i128 - a.y as i128;
        proof {
            lemma_product_range(px as int, dy as int, 0x1_0000_0000, 0x1_0000_0000);
            lemma_product_range(dx as int, py as int, 0x1_0000_0000, 0x1_0000_0000);
        }
        if dy > 0 {
            px * dy < dx * py
        } else {
            px * dy > dx * py
        }
    } else {
        false
    }
}

/// Decides whether a point lies inside a polygon by the crossing-number
/// test.
pub fn point_polygon_colision(point: &Position, polygon: &Vec<Position>) -> (r: Result<
    bool,
    GeometryError,
>)
    ensures
        r == point_polygon_outcome(point@, polygon@),
{
    let n: usize = polygon.len();
    if n < 3 {
        return Err(GeometryError::DegenerateGeometry);
    }
    let ghost poly = grid_points(polygon@);
    let mut collision = false;
    let mut current: usize = 0;
    while current < n
        invariant
            n == polygon.len(),
            poly == grid_points(polygon@),
            0 <= current <= n,
            collision == (crossings(poly, point@, current as nat) % 2 == 1),
        decreases n - current,
    {
        let next: usize = if current + 1 == n {
            0
        } else {
            current + 1
        };
        if edge_crossing(&polygon[current], &polygon[next], point) {
            collision = !collision;
        }
        current = current + 1;
    }
    Ok(collision)
}

/// Decides whether a circle overlaps a polygon.
pub fn circle_polygon_collision(circle: &Circle, polygon: &Vec<Position>) -> (r: Result<
    bool,
    GeometryError,
>)
    ensures
        r == circle_polygon_outcome(*circle, polygon@),
{
    let n: usize = polygon.len();
    if n < 3 {
        return Err(GeometryError::DegenerateGeometry);
    }
    let mut degenerate_seen = false;
    let mut current: usize = 0;
    while current < n
        invariant
            n == polygon.len(),
            n >= 3,
            0 <= current <= n,
            forall|i: int|
                0 <= i < current ==> !segment_circle_collision(
                    #[trigger] polygon_edge(polygon@, i),
                    *circle,
                ),
            degenerate_seen == (exists|i: int|
                0 <= i < current && (#[trigger] polygon_edge(polygon@, i)).is_degenerate()),
        decreases n - current,
    {
        let next: usize = if current + 1 == n {
            0
        } else {
            current + 1
        };
        let current_line = Segment { start: polygon[current], end: polygon[next] };
        assert(current_line == polygon_edge(polygon@, current as int));
        match line_circle_collision(&current_line, circle) {
            Ok(true) => {
                assert(segment_circle_collision(polygon_edge(polygon@, current as int), *circle));
                return Ok(true);
            },
            Ok(false) => {},
            Err(_) => {
                degenerate_seen = true;
            },
        }
        current = current + 1;
    }
    match point_polygon_colision(&circle.center, polygon) {
        Ok(true) => Ok(true),
        _ => if degenerate_seen {
            Err(GeometryError::DegenerateGeometry)
        } else {
            Ok(false)
        },
    }
}

} // verus!
