//! Headings: the direction from one position to another, a heading turned
//! by an angle, and the cone that a heading and a half-angle span.
//!
//! An angle is given by its cosine and sine in millionths, so that no
//! trigonometry is needed here.

use crate::collision_detection::{dist_sq, narrow, WidePoint};
use crate::error::GeometryError;
use crate::fixed::{
    compute_round_div, compute_sqrt_ceil, lemma_round_div_bounds, lemma_round_div_range,
    lemma_sqrt_ceil_exists, round_div, sqrt_ceil, HEADING_SCALE,
};
use crate::map::Direction;
use crate::shapes::{grid_points, GridPoint, Position};
use vstd::prelude::*;

verus! {

/// An angle, given as its cosine and sine in millionths: a quarter turn
/// counter-clockwise is `cos: 0, sin: HEADING_SCALE`.
#[derive(Clone, Copy, Debug, PartialEq, Eq, Structural)]
pub struct Rotation {
    pub cos: i32,
    pub sin: i32,
}

impl View for Rotation {
    type V = GridPoint;

    open spec fn view(&self) -> GridPoint {
        GridPoint { x: self.cos as int, y: self.sin as int }
    }
}

/// The grid point at the origin, and the vector of no length.
pub open spec fn origin() -> GridPoint {
    GridPoint { x: 0, y: 0 }
}

/// The length of the vector in millionths of a unit, rounded up.
pub open spec fn fine_length(v: GridPoint) -> nat {
    sqrt_ceil(dist_sq(origin(), v) * (HEADING_SCALE * HEADING_SCALE) as nat)
}

/// The vector scaled to the given length, rounded to the grid. Its own
/// length is taken rounded up, so the result is never longer than `length`
/// in either coordinate. Meant for a vector that is not zero.
pub open spec fn scaled_to(v: GridPoint, length: int) -> GridPoint
    recommends
        v != origin(),
{
    GridPoint {
        x: round_div(v.x * length * HEADING_SCALE, fine_length(v) as int),
        y: round_div(v.y * length * HEADING_SCALE, fine_length(v) as int),
    }
}

/// The vector scaled to the length of a unit heading.
pub open spec fn unit_vector(v: GridPoint) -> GridPoint
    recommends
        v != origin(),
{
    scaled_to(v, HEADING_SCALE as int)
}

/// The heading from `a` to `b`; there is none from a position to itself.
pub open spec fn direction_between(a: GridPoint, b: GridPoint) -> Result<GridPoint, GeometryError> {
    if a == b {
        Err(GeometryError::DegenerateGeometry)
    } else {
        Ok(unit_vector(GridPoint { x: b.x - a.x, y: b.y - a.y }))
    }
}

/// The vector turned counter-clockwise by the angle whose cosine and sine
/// are the coordinates of `r`, and stretched by the length of `r`.
pub open spec fn turned(v: GridPoint, r: GridPoint) -> GridPoint {
    GridPoint { x: v.x * r.x - v.y * r.y, y: v.x * r.y + v.y * r.x }
}

/// The vector turned clockwise by the angle, stretched likewise.
pub open spec fn turned_back(v: GridPoint, r: GridPoint) -> GridPoint {
    GridPoint { x: v.x * r.x + v.y * r.y, y: v.y * r.x - v.x * r.y }
}

/// The unit heading along `d`, turned counter-clockwise by the angle. Both
/// the heading and the pair of cosine and sine are brought to unit length
/// first, so the result is about `HEADING_SCALE` squared long.
pub open spec fn rotated_heading(d: GridPoint, r: GridPoint) -> GridPoint {
    turned(unit_vector(d), unit_vector(r))
}

/// The unit heading along `d`, turned clockwise by the angle.
pub open spec fn rotated_back_heading(d: GridPoint, r: GridPoint) -> GridPoint {
    turned_back(unit_vector(d), unit_vector(r))
}

/// What `add_angle_to_direction` returns: the unit heading along `d`,
/// turned by the angle, is added to `d` itself, and the sum is brought to
/// unit length. This is not a pure rotation: a unit heading is turned by
/// half the angle. A vector of no length, before any scaling, is an error.
pub open spec fn add_angle_outcome(d: GridPoint, r: GridPoint) -> Result<GridPoint, GeometryError> {
    let rotated = unit_vector(rotated_heading(d, r));
    let sum = GridPoint { x: d.x + rotated.x, y: d.y + rotated.y };
    if d == origin() || r == origin() || sum == origin() {
        Err(GeometryError::DegenerateGeometry)
    } else {
        Ok(unit_vector(sum))
    }
}

/// What `calculate_triangle_vertices` returns: the start, then the ends of
/// the two rays of length `range` that leave it at the half-angle to either
/// side of the heading, the counter-clockwise one first. Each ray is scaled
/// by its own length; the two are equally long before
/// (`lemma_turned_lengths_agree`). A heading or an angle of no length is an
/// error, and so is a vertex outside the range of coordinates.
pub open spec fn triangle_outcome(start: GridPoint, d: GridPoint, range: u32, r: GridPoint) -> Result<
    Seq<GridPoint>,
    GeometryError,
> {
    let ray_1 = scaled_to(rotated_heading(d, r), range as int);
    let ray_2 = scaled_to(rotated_back_heading(d, r), range as int);
    let vertex_1 = GridPoint { x: start.x + ray_1.x, y: start.y + ray_1.y };
    let vertex_2 = GridPoint { x: start.x + ray_2.x, y: start.y + ray_2.y };
    if d == origin() || r == origin() {
        Err(GeometryError::DegenerateGeometry)
    } else if !vertex_1.is_position() || !vertex_2.is_position() {
        Err(GeometryError::CoordinateOverflow)
    } else {
        Ok(seq![start, vertex_1, vertex_2])
    }
}

/// A vector and its length in millionths of a unit.
struct Measured {
    x: i128,
    y: i128,
    len: i128,
}

/// A coordinate of a vector, in millionths, is no longer than the vector.
proof fn lemma_coordinate_within_length(x: int, y: int, len: nat)
    requires
        len * len >= (x * x + y * y) * (HEADING_SCALE * HEADING_SCALE),
    ensures
        -len <= x * HEADING_SCALE <= len,
        -len <= y * HEADING_SCALE <= len,
        x != 0 || y != 0 ==> len > 0,
{
    assert((x * HEADING_SCALE) * (x * HEADING_SCALE) + (y * HEADING_SCALE) * (y * HEADING_SCALE)
        == (x * x + y * y) * (HEADING_SCALE * HEADING_SCALE)) by (nonlinear_arith);
    let a = x * HEADING_SCALE;
    let b = y * HEADING_SCALE;
    assert(-len <= a <= len && -len <= b <= len && (a != 0 || b != 0 ==> len > 0))
        by (nonlinear_arith)
        requires
            len * len >= a * a + b * b,
            len >= 0,
    ;
}

/// The squared length of a vector from the origin.
pub proof fn lemma_dist_sq_from_origin(v: GridPoint)
    ensures
        dist_sq(origin(), v) == v.x * v.x + v.y * v.y,
{
    assert((0 - v.x) * (0 - v.x) + (0 - v.y) * (0 - v.y) == v.x * v.x + v.y * v.y && v.x * v.x
        + v.y * v.y >= 0) by (nonlinear_arith);
}

/// Measures a vector that is not zero.
fn measure(x: i128, y: i128) -> (m: Measured)
    requires
        -0x800_0000_0000 <= x <= 0x800_0000_0000,
        -0x800_0000_0000 <= y <= 0x800_0000_0000,
        x != 0 || y != 0,
    ensures
        m.x == x,
        m.y == y,
        m.len == fine_length(GridPoint { x: x as int, y: y as int }),
        0 < m.len <= 0x1_0000_0000_0000_0000,
        -m.len <= x * HEADING_SCALE <= m.len,
        -m.len <= y * HEADING_SCALE <= m.len,
{
    assert(0 <= x * x <= 0x40_0000_0000_0000_0000_0000) by (nonlinear_arith)
        requires
            -0x800_0000_0000 <= x <= 0x800_0000_0000,
    ;
    assert(0 <= y * y <= 0x40_0000_0000_0000_0000_0000) by (nonlinear_arith)
        requires
            -0x800_0000_0000 <= y <= 0x800_0000_0000,
    ;
    let sq: u128 = (x * x) as u128 + (y * y) as u128;
    assert(sq * 1_000_000_000_000 <= 0x80_0000_0000_0000_0000_0000 * 1_000_000_000_000)
        by (nonlinear_arith)
        requires
            sq <= 0x80_0000_0000_0000_0000_0000,
    ;
    let fine: u128 = sq * 1_000_000_000_000;
    let len: u128 = compute_sqrt_ceil(fine);
    proof {
        lemma_dist_sq_from_origin(GridPoint { x: x as int, y: y as int });
        assert(HEADING_SCALE * HEADING_SCALE == 1_000_000_000_000);
        lemma_coordinate_within_length(x as int, y as int, len as nat);
    }
    Measured { x, y, len: len as i128 }
}

/// Scales one coordinate of a measured vector to the length `to`.
fn scale_coordinate(c: i128, len: i128, to: i128) -> (scaled: i128)
    requires
        0 < len <= 0x1_0000_0000_0000_0000,
        -len <= c * HEADING_SCALE <= len,
        0 <= to <= 0xFFFF_FFFF,
    ensures
        scaled == round_div(c * to * HEADING_SCALE, len as int),
        -to <= scaled <= to,
{
    let fine: i128 = c * (HEADING_SCALE as i128);
    assert(-(to * len) <= fine * to <= to * len && -0x1_0000_0000_0000_0000_0000_0000 <= fine * to
        <= 0x1_0000_0000_0000_0000_0000_0000) by (nonlinear_arith)
        requires
            0 < len <= 0x1_0000_0000_0000_0000,
            -len <= fine <= len,
            0 <= to <= 0xFFFF_FFFF,
    ;
    assert(fine * to == c * to * HEADING_SCALE) by (nonlinear_arith)
        requires
            fine == c * HEADING_SCALE,
    ;
    proof {
        lemma_round_div_range(fine * to, len as int, to as int);
    }
    compute_round_div(fine * to, len)
}

/// Brings a vector that is not zero to unit length.
fn normalize(x: i128, y: i128) -> (d: Direction)
    requires
        -0x800_0000_0000 <= x <= 0x800_0000_0000,
        -0x800_0000_0000 <= y <= 0x800_0000_0000,
        x != 0 || y != 0,
    ensures
        d@ == unit_vector(GridPoint { x: x as int, y: y as int }),
        -HEADING_SCALE <= d.x <= HEADING_SCALE,
        -HEADING_SCALE <= d.y <= HEADING_SCALE,
{
    let m = measure(x, y);
    let ux: i128 = scale_coordinate(m.x, m.len, HEADING_SCALE as i128);
    let uy: i128 = scale_coordinate(m.y, m.len, HEADING_SCALE as i128);
    Direction { x: ux as i32, y: uy as i32 }
}

/// Computes the heading from `position_a` to `position_b`.
pub fn get_direction_from_positions(position_a: &Position, position_b: &Position) -> (r: Result<
    Direction,
    GeometryError,
>)
    ensures
        match r {
            Ok(d) => direction_between(position_a@, position_b@) == Ok::<GridPoint, GeometryError>(
                d@,
            ),
            Err(e) => direction_between(position_a@, position_b@) == Err::<
                GridPoint,
                GeometryError,
            >(e),
        },
{
    let x: i128 = position_b.x as i128 - position_a.x as i128;
    let y: i128 = position_b.y as i128 - position_a.y as i128;
    if x == 0 && y == 0 {
        return Err(GeometryError::DegenerateGeometry);
    }
    Ok(normalize(x, y))
}

/// The product of two coordinates of unit vectors.
proof fn lemma_product_size(a: int, b: int)
    requires
        -HEADING_SCALE <= a <= HEADING_SCALE,
        -HEADING_SCALE <= b <= HEADING_SCALE,
    ensures
        -1_000_000_000_000 <= a * b <= 1_000_000_000_000,
{
    assert(-1_000_000_000_000 <= a * b <= 1_000_000_000_000) by (nonlinear_arith)
        requires
            -1_000_000 <= a <= 1_000_000,
            -1_000_000 <= b <= 1_000_000,
    ;
}

/// Turns a unit heading counter-clockwise by a unit angle.
fn turn(u: &Direction, r: &Direction) -> (t: (i128, i128))
    requires
        -HEADING_SCALE <= u.x <= HEADING_SCALE,
        -HEADING_SCALE <= u.y <= HEADING_SCALE,
        -HEADING_SCALE <= r.x <= HEADING_SCALE,
        -HEADING_SCALE <= r.y <= HEADING_SCALE,
    ensures
        turned(u@, r@) == (GridPoint { x: t.0 as int, y: t.1 as int }),
        -2_000_000_000_000 <= t.0 <= 2_000_000_000_000,
        -2_000_000_000_000 <= t.1 <= 2_000_000_000_000,
{
    let x: i128 = u.x as i128;
    let y: i128 = u.y as i128;
    let c: i128 = r.x as i128;
    let s: i128 = r.y as i128;
    proof {
        lemma_product_size(x as int, c as int);
        lemma_product_size(y as int, s as int);
        lemma_product_size(x as int, s as int);
        lemma_product_size(y as int, c as int);
    }
    (x * c - y * s, x * s + y * c)
}

/// Turns a unit heading clockwise by a unit angle.
fn turn_back(u: &Direction, r: &Direction) -> (t: (i128, i128))
    requires
        -HEADING_SCALE <= u.x <= HEADING_SCALE,
        -HEADING_SCALE <= u.y <= HEADING_SCALE,
        -HEADING_SCALE <= r.x <= HEADING_SCALE,
        -HEADING_SCALE <= r.y <= HEADING_SCALE,
    ensures
        turned_back(u@, r@) == (GridPoint { x: t.0 as int, y: t.1 as int }),
        -2_000_000_000_000 <= t.0 <= 2_000_000_000_000,
        -2_000_000_000_000 <= t.1 <= 2_000_000_000_000,
{
    let x: i128 = u.x as i128;
    let y: i128 = u.y as i128;
    let c: i128 = r.x as i128;
    let s: i128 = r.y as i128;
    proof {
        lemma_product_size(x as int, c as int);
        lemma_product_size(y as int, s as int);
        lemma_product_size(x as int, s as int);
        lemma_product_size(y as int, c as int);
    }
    (x * c + y * s, y * c - x * s)
}

/// Turns a heading towards its own rotation by an angle: the unit heading,
/// rotated by the angle, is added to the heading, and the sum is brought to
/// unit length.
pub fn add_angle_to_direction(direction: &Direction, angle: &Rotation) -> (r: Result<
    Direction,
    GeometryError,
>)
    ensures
        match r {
            Ok(d) => add_angle_outcome(direction@, angle@) == Ok::<GridPoint, GeometryError>(d@),
            Err(e) => add_angle_outcome(direction@, angle@) == Err::<GridPoint, GeometryError>(e),
        },
{
    if (direction.x == 0 && direction.y == 0) || (angle.cos == 0 && angle.sin == 0) {
        return Err(GeometryError::DegenerateGeometry);
    }
    let heading = normalize(direction.x as i128, direction.y as i128);
    let unit_angle = normalize(angle.cos as i128, angle.sin as i128);
    let t = turn(&heading, &unit_angle);
    proof {
        lemma_turned_is_not_zero(direction@, angle@);
    }
    let rotated = normalize(t.0, t.1);
    let result_x: i128 = direction.x as i128 + rotated.x as i128;
    let result_y: i128 = direction.y as i128 + rotated.y as i128;
    if result_x == 0 && result_y == 0 {
        return Err(GeometryError::DegenerateGeometry);
    }
    Ok(normalize(result_x, result_y))
}

/// Computes the triangle that a heading and a half-angle span from a
/// starting point: the starting point, then the ends of the two rays of
/// length `range` at the half-angle to either side of the heading.
pub fn calculate_triangle_vertices(
    starting_point: &Position,
    direction: &Direction,
    range: u32,
    angle: &Rotation,
) -> (r: Result<Vec<Position>, GeometryError>)
    ensures
        match r {
            Ok(vertices) => triangle_outcome(starting_point@, direction@, range, angle@) == Ok::<
                Seq<GridPoint>,
                GeometryError,
            >(grid_points(vertices@)),
            Err(e) => triangle_outcome(starting_point@, direction@, range, angle@) == Err::<
                Seq<GridPoint>,
                GeometryError,
            >(e),
        },
{
    if (direction.x == 0 && direction.y == 0) || (angle.cos == 0 && angle.sin == 0) {
        return Err(GeometryError::DegenerateGeometry);
    }
    let heading = normalize(direction.x as i128, direction.y as i128);
    let unit_angle = normalize(angle.cos as i128, angle.sin as i128);
    let v1 = turn(&heading, &unit_angle);
    let v2 = turn_back(&heading, &unit_angle);
    proof {
        lemma_turned_is_not_zero(direction@, angle@);
    }
    let m1 = measure(v1.0, v1.1);
    let m2 = measure(v2.0, v2.1);
    let reach: i128 = range as i128;
    let x1: i128 = starting_point.x as i128 + scale_coordinate(m1.x, m1.len, reach);
    let y1: i128 = starting_point.y as i128 + scale_coordinate(m1.y, m1.len, reach);
    let x2: i128 = starting_point.x as i128 + scale_coordinate(m2.x, m2.len, reach);
    let y2: i128 = starting_point.y as i128 + scale_coordinate(m2.y, m2.len, reach);
    let vertex_1 = narrow(WidePoint { x: x1 as i64, y: y1 as i64 });
    let vertex_2 = narrow(WidePoint { x: x2 as i64, y: y2 as i64 });
    match (vertex_1, vertex_2) {
        (Some(p1), Some(p2)) => {
            let mut vertices: Vec<Position> = Vec::new();
            vertices.push(*starting_point);
            vertices.push(p1);
            vertices.push(p2);
            assert(grid_points(vertices@) =~= seq![starting_point@, p1@, p2@]);
            Ok(vertices)
        },
        _ => Err(GeometryError::CoordinateOverflow),
    }
}

/// The square of a sum.
proof fn lemma_square_of_sum(a: int, e: int)
    ensures
        (a + e) * (a + e) == a * a + a * (2 * e) + e * e,
{
    assert((a + e) * (a + e) == a * a + a * (2 * e) + e * e) by (nonlinear_arith);
}

/// The square of a product.
proof fn lemma_square_of_product(m: int, p: int)
    ensures
        (m * p) * (m * p) == (m * m) * (p * p),
{
    assert((m * p) * (m * p) == (m * m) * (p * p)) by (nonlinear_arith);
}

/// Turning a vector by an angle multiplies its squared length by that of
/// the pair of cosine and sine, whichever way it is turned.
proof fn lemma_turned_length(x: int, y: int, c: int, s: int)
    ensures
        (x * c - y * s) * (x * c - y * s) + (x * s + y * c) * (x * s + y * c) == (x * x + y * y) * (
        c * c + s * s),
        (x * c + y * s) * (x * c + y * s) + (y * c - x * s) * (y * c - x * s) == (x * x + y * y) * (
        c * c + s * s),
{
    let xc = x * c;
    let ys = y * s;
    let xs = x * s;
    let yc = y * c;
    lemma_square_of_sum(xc, -ys);
    lemma_square_of_sum(xs, yc);
    lemma_square_of_sum(xc, ys);
    lemma_square_of_sum(yc, -xs);
    lemma_square_of_product(x, c);
    lemma_square_of_product(y, s);
    lemma_square_of_product(x, s);
    lemma_square_of_product(y, c);
    assert(xc * (2 * -ys) + xs * (2 * yc) == 0) by (nonlinear_arith)
        requires
            xc == x * c,
            ys == y * s,
            xs == x * s,
            yc == y * c,
    ;
    assert(xc * (2 * ys) + yc * (2 * -xs) == 0) by (nonlinear_arith)
        requires
            xc == x * c,
            ys == y * s,
            xs == x * s,
            yc == y * c,
    ;
    assert((-ys) * (-ys) == ys * ys && (-xs) * (-xs) == xs * xs) by (nonlinear_arith);
    assert((x * x + y * y) * (c * c + s * s) == (x * x) * (c * c) + (y * y) * (s * s) + (x * x) * (
    s * s) + (y * y) * (c * c)) by (nonlinear_arith);
}

/// The arithmetic of bringing a vector to the length `m`: `l` is the length
/// of the vector `(vx, vy)` in units of one `m`-th, rounded up, and `ux` and
/// `uy` are `vx * m * m / l` and `vy * m * m / l`, rounded to the nearest
/// integer. The vector `(ux, uy)` is then between `m - 3` and `m + 1` long.
proof fn lemma_scaled_length(vx: int, vy: int, l: int, m: int, ux: int, uy: int)
    requires
        m >= 5,
        l > 0,
        vx != 0 || vy != 0,
        l * l >= (vx * vx + vy * vy) * (m * m),
        (l - 1) * (l - 1) < (vx * vx + vy * vy) * (m * m),
        2 * l * ux <= 2 * (vx * m * m) + l < 2 * l * ux + 2 * l,
        2 * l * uy <= 2 * (vy * m * m) + l < 2 * l * uy + 2 * l,
    ensures
        (m - 3) * (m - 3) <= ux * ux + uy * uy <= (m + 1) * (m + 1),
{
    let px = m * vx;
    let py = m * vy;
    let q = px * px + py * py;
    let ex = l * ux - m * px;
    let ey = l * uy - m * py;
    let ll = l * l;
    assert(q == (vx * vx + vy * vy) * (m * m)) by (nonlinear_arith)
        requires
            px == m * vx,
            py == m * vy,
            q == px * px + py * py,
    ;
    assert(m * px == vx * m * m && m * py == vy * m * m) by (nonlinear_arith)
        requires
            px == m * vx,
            py == m * vy,
    ;
    assert(2 * l * ux == 2 * (l * ux) && 2 * l * uy == 2 * (l * uy)) by (nonlinear_arith);
    assert(-l < 2 * ex <= l && -l < 2 * ey <= l);
    assert(q >= m * m) by (nonlinear_arith)
        requires
            q == (vx * vx + vy * vy) * (m * m),
            vx != 0 || vy != 0,
    ;
    assert(l >= m) by (nonlinear_arith)
        requires
            l * l >= q,
            q >= m * m,
            l > 0,
            m >= 5,
    ;
    assert(-l <= px <= l && -l <= py <= l) by (nonlinear_arith)
        requires
            l * l >= q,
            q == px * px + py * py,
            l > 0,
    ;
    let tx = px * (2 * ex);
    let ty = py * (2 * ey);
    assert(-ll <= tx <= ll) by (nonlinear_arith)
        requires
            -l <= px <= l,
            -l < 2 * ex <= l,
            tx == px * (2 * ex),
            ll == l * l,
    ;
    assert(-ll <= ty <= ll) by (nonlinear_arith)
        requires
            -l <= py <= l,
            -l < 2 * ey <= l,
            ty == py * (2 * ey),
            ll == l * l,
    ;
    assert(0 <= 4 * (ex * ex) <= ll && 0 <= 4 * (ey * ey) <= ll) by (nonlinear_arith)
        requires
            -l < 2 * ex <= l,
            -l < 2 * ey <= l,
            ll == l * l,
    ;
    let sx = ll * (ux * ux);
    let sy = ll * (uy * uy);
    lemma_square_of_product(l, ux);
    lemma_square_of_product(l, uy);
    lemma_square_of_sum(m * px, ex);
    lemma_square_of_sum(m * py, ey);
    lemma_square_of_product(m, px);
    lemma_square_of_product(m, py);
    assert((m * px) * (2 * ex) == m * tx && (m * py) * (2 * ey) == m * ty) by (nonlinear_arith)
        requires
            tx == px * (2 * ex),
            ty == py * (2 * ey),
    ;
    assert(sx == m * m * (px * px) + m * tx + ex * ex);
    assert(sy == m * m * (py * py) + m * ty + ey * ey);
    let total = sx + sy;
    let s = ux * ux + uy * uy;
    assert(total == ll * s) by (nonlinear_arith)
        requires
            total == ll * (ux * ux) + ll * (uy * uy),
            s == ux * ux + uy * uy,
    ;
    assert(total == m * m * q + m * tx + m * ty + ex * ex + ey * ey) by (nonlinear_arith)
        requires
            total == sx + sy,
            sx == m * m * (px * px) + m * tx + ex * ex,
            sy == m * m * (py * py) + m * ty + ey * ey,
            q == px * px + py * py,
    ;
    let mm = m * m;
    assert(mm * q <= mm * ll && mm * q >= mm * (ll - 2 * l + 2)) by (nonlinear_arith)
        requires
            q <= ll,
            q > (l - 1) * (l - 1),
            ll == l * l,
            mm == m * m,
            m >= 5,
    ;
    assert(-(2 * m * ll) <= m * tx + m * ty <= 2 * m * ll) by (nonlinear_arith)
        requires
            -ll <= tx <= ll,
            -ll <= ty <= ll,
            m >= 5,
    ;
    assert(total <= (m + 1) * (m + 1) * ll) by (nonlinear_arith)
        requires
            total == mm * q + (m * tx + m * ty) + ex * ex + ey * ey,
            mm * q <= mm * ll,
            m * tx + m * ty <= 2 * m * ll,
            4 * (ex * ex) <= ll,
            4 * (ey * ey) <= ll,
            mm == m * m,
            ll >= 0,
    ;
    assert(total >= (m - 3) * (m - 3) * ll) by (nonlinear_arith)
        requires
            total == mm * q + (m * tx + m * ty) + ex * ex + ey * ey,
            mm * q >= mm * (ll - 2 * l + 2),
            m * tx + m * ty >= -(2 * m * ll),
            ex * ex >= 0,
            ey * ey >= 0,
            mm == m * m,
            ll == l * l,
            l >= m,
            m >= 5,
    ;
    assert(s <= (m + 1) * (m + 1)) by (nonlinear_arith)
        requires
            ll * s <= (m + 1) * (m + 1) * ll,
            ll > 0,
    ;
    assert(s >= (m - 3) * (m - 3)) by (nonlinear_arith)
        requires
            ll * s >= (m - 3) * (m - 3) * ll,
            ll > 0,
    ;
}

/// A vector brought to unit length is a unit long, up to the rounding of
/// its length and of its two coordinates: its length lies between
/// `HEADING_SCALE - 3` and `HEADING_SCALE + 1`, so its squared length is
/// within six millionths of that of a unit.
pub proof fn lemma_unit_vector_length(v: GridPoint)
    requires
        v != origin(),
    ensures
        (HEADING_SCALE - 3) * (HEADING_SCALE - 3) <= unit_vector(v).x * unit_vector(v).x
            + unit_vector(v).y * unit_vector(v).y <= (HEADING_SCALE + 1) * (HEADING_SCALE + 1),
        unit_vector(v) != origin(),
{
    let m = HEADING_SCALE as int;
    let d2 = dist_sq(origin(), v);
    lemma_dist_sq_from_origin(v);
    lemma_sqrt_ceil_exists(d2 * (HEADING_SCALE * HEADING_SCALE) as nat);
    let l = fine_length(v) as int;
    assert(d2 >= 1) by (nonlinear_arith)
        requires
            d2 == v.x * v.x + v.y * v.y,
            v.x != 0 || v.y != 0,
    ;
    assert(d2 * (m * m) >= 1) by (nonlinear_arith)
        requires
            d2 >= 1,
            m == 1_000_000,
    ;
    assert(l > 0) by (nonlinear_arith)
        requires
            l * l >= d2 * (m * m),
            d2 * (m * m) >= 1,
            l >= 0,
    ;
    let u = unit_vector(v);
    lemma_round_div_bounds(v.x * m * m, l);
    lemma_round_div_bounds(v.y * m * m, l);
    lemma_scaled_length(v.x, v.y, l, m, u.x, u.y);
    assert((m - 3) * (m - 3) > 0);
    if u == origin() {
        assert(u.x * u.x + u.y * u.y == 0) by (nonlinear_arith)
            requires
                u.x == 0,
                u.y == 0,
        ;
    }
}

/// A heading and an angle that are not zero give a rotated heading that is
/// not zero, whichever way it is turned.
pub proof fn lemma_turned_is_not_zero(d: GridPoint, r: GridPoint)
    requires
        d != origin(),
        r != origin(),
    ensures
        rotated_heading(d, r) != origin(),
        rotated_back_heading(d, r) != origin(),
{
    let u = unit_vector(d);
    let a = unit_vector(r);
    lemma_unit_vector_length(d);
    lemma_unit_vector_length(r);
    let t = turned(u, a);
    let b = turned_back(u, a);
    lemma_turned_length(u.x, u.y, a.x, a.y);
    assert((HEADING_SCALE - 3) * (HEADING_SCALE - 3) > 0);
    assert((u.x * u.x + u.y * u.y) * (a.x * a.x + a.y * a.y) > 0) by (nonlinear_arith)
        requires
            u.x * u.x + u.y * u.y > 0,
            a.x * a.x + a.y * a.y > 0,
    ;
    if t == origin() {
        assert(t.x * t.x + t.y * t.y == 0) by (nonlinear_arith)
            requires
                t.x == 0,
                t.y == 0,
        ;
    }
    if b == origin() {
        assert(b.x * b.x + b.y * b.y == 0) by (nonlinear_arith)
            requires
                b.x == 0,
                b.y == 0,
        ;
    }
}

/// Turned one way or the other by the same angle, a heading gives rays of
/// one length: it makes no difference by which of the two the sides of the
/// triangle are scaled.
pub proof fn lemma_turned_lengths_agree(d: GridPoint, r: GridPoint)
    ensures
        dist_sq(origin(), rotated_heading(d, r)) == dist_sq(origin(), rotated_back_heading(d, r)),
        fine_length(rotated_heading(d, r)) == fine_length(rotated_back_heading(d, r)),
{
    let u = unit_vector(d);
    let a = unit_vector(r);
    lemma_turned_length(u.x, u.y, a.x, a.y);
    lemma_dist_sq_from_origin(rotated_heading(d, r));
    lemma_dist_sq_from_origin(rotated_back_heading(d, r));
}

/// Every heading that `add_angle_to_direction` and
/// `get_direction_from_positions` return is a unit long, up to rounding: its
/// length lies between `HEADING_SCALE - 3` and `HEADING_SCALE + 1`.
pub proof fn lemma_headings_are_unit(a: GridPoint, b: GridPoint, h: GridPoint)
    requires
        add_angle_outcome(a, b) == Ok::<GridPoint, GeometryError>(h) || direction_between(a, b)
            == Ok::<GridPoint, GeometryError>(h),
    ensures
        (HEADING_SCALE - 3) * (HEADING_SCALE - 3) <= h.x * h.x + h.y * h.y <= (HEADING_SCALE + 1) * (
        HEADING_SCALE + 1),
{
    if add_angle_outcome(a, b) == Ok::<GridPoint, GeometryError>(h) {
        let rotated = unit_vector(rotated_heading(a, b));
        lemma_unit_vector_length(GridPoint { x: a.x + rotated.x, y: a.y + rotated.y });
    } else {
        lemma_unit_vector_length(GridPoint { x: b.x - a.x, y: b.y - a.y });
    }
}

} // verus!
