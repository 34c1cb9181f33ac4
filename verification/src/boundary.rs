//! Keeping a position inside the boundary of the arena: where a move has
//! left the boundary, the entity is put back on the way it came, at the
//! last place that is still inside.
//!
//! The way is walked back from the target one step at a time, for no more
//! than `RESOLUTION_BUDGET` steps.

use crate::error::GeometryError;
use crate::fixed::{
    compute_round_div, lemma_round_div_monotone, lemma_round_div_multiple, round_div,
};
use crate::map::{inside_boundary, position_inside, Entity};
use crate::shapes::{GridPoint, Position};
use vstd::prelude::*;

verus! {

/// The number of steps of a way that are looked at for a place inside the
/// boundary, counted back from the target.
pub const RESOLUTION_BUDGET: i64 = 0x10_0000;

/// The boundary encloses `p`.
pub open spec fn contains(boundary: Entity, p: GridPoint) -> bool {
    inside_boundary(p, boundary) == Ok::<bool, GeometryError>(true)
}

/// The boundary is a shape that encloses an area, so that every point is
/// either inside it or not.
pub open spec fn is_boundary(boundary: Entity) -> bool {
    inside_boundary(GridPoint { x: 0, y: 0 }, boundary) is Ok
}

/// The number of steps into which the way from `a` to `b` is cut: one for
/// each unit along the axis on which the two are farther apart.
pub open spec fn path_steps(a: GridPoint, b: GridPoint) -> nat {
    vstd::math::max(vstd::math::abs(b.x - a.x) as int, vstd::math::abs(b.y - a.y) as int) as nat
}

/// The grid point `k` steps along the way from `a` to `b`: `a` itself at
/// step 0, `b` at the last step, and between them the point of the straight
/// line, rounded to the grid.
pub open spec fn path_point(a: GridPoint, b: GridPoint, k: int) -> GridPoint {
    let n = path_steps(a, b) as int;
    if n == 0 {
        a
    } else {
        GridPoint {
            x: a.x + round_div(k * (b.x - a.x), n),
            y: a.y + round_div(k * (b.y - a.y), n),
        }
    }
}

/// The first step of the way from `a` to `b` that is looked at: the start,
/// or the step that lies the budget before the target.
pub open spec fn first_examined_step(a: GridPoint, b: GridPoint) -> int {
    vstd::math::max(0, path_steps(a, b) - RESOLUTION_BUDGET)
}

/// Step `k` of the way from `a` to `b` is looked at and inside the boundary,
/// and no later step is inside: of all the places on the way that are
/// inside, this one is the closest to `b`.
pub open spec fn is_last_inside_step(boundary: Entity, a: GridPoint, b: GridPoint, k: int) -> bool {
    &&& first_examined_step(a, b) <= k <= path_steps(a, b)
    &&& contains(boundary, path_point(a, b, k))
    &&& forall|j: int|
        k < j <= path_steps(a, b) ==> !contains(boundary, #[trigger] path_point(a, b, j))
}

/// None of the steps that are looked at is inside the boundary.
pub open spec fn no_inside_step(boundary: Entity, a: GridPoint, b: GridPoint) -> bool {
    forall|j: int|
        first_examined_step(a, b) <= j <= path_steps(a, b) ==> !contains(
            boundary,
            #[trigger] path_point(a, b, j),
        )
}

/// The last step of the way from `a` to `b` that is inside the boundary.
/// Meant for a way with such a step.
pub open spec fn last_inside_step(boundary: Entity, a: GridPoint, b: GridPoint) -> int {
    choose|k: int| is_last_inside_step(boundary, a, b, k)
}

/// Where an entity that set out from `start` for `target` comes to stand:
/// at the last place on its way that is inside the boundary, which is the
/// target itself if that is inside. If no place that is looked at is
/// inside, none is found. A boundary that encloses no area is degenerate.
pub open spec fn resolved_position(start: GridPoint, target: GridPoint, boundary: Entity) -> Result<
    GridPoint,
    GeometryError,
> {
    if !is_boundary(boundary) {
        Err(GeometryError::DegenerateGeometry)
    } else if no_inside_step(boundary, start, target) {
        Err(GeometryError::BoundaryResolutionFailed)
    } else {
        Ok(path_point(start, target, last_inside_step(boundary, start, target)))
    }
}

/// A step along the way stays between the two ends in each coordinate.
pub proof fn lemma_path_offset(k: int, d: int, n: int)
    requires
        0 <= k <= n,
        n > 0,
    ensures
        d >= 0 ==> 0 <= round_div(k * d, n) <= d,
        d < 0 ==> d <= round_div(k * d, n) <= 0,
        k == 0 ==> round_div(k * d, n) == 0,
        k == n ==> round_div(k * d, n) == d,
{
    lemma_round_div_multiple(0, n);
    lemma_round_div_multiple(d, n);
    assert(0 * n == 0);
    if d >= 0 {
        assert(0 <= k * d <= d * n) by (nonlinear_arith)
            requires
                0 <= k <= n,
                d >= 0,
        ;
        lemma_round_div_monotone(0, k * d, n);
        lemma_round_div_monotone(k * d, d * n, n);
    } else {
        assert(d * n <= k * d <= 0) by (nonlinear_arith)
            requires
                0 <= k <= n,
                d < 0,
        ;
        lemma_round_div_monotone(k * d, 0, n);
        lemma_round_div_monotone(d * n, k * d, n);
    }
    if k == 0 {
        assert(k * d == 0);
    }
    if k == n {
        assert(k * d == d * n) by (nonlinear_arith)
            requires
                k == n,
        ;
    }
}

/// The way from `a` to `b` starts at `a` and ends at `b`.
pub proof fn lemma_path_ends(a: GridPoint, b: GridPoint)
    ensures
        path_point(a, b, 0) == a,
        path_point(a, b, path_steps(a, b) as int) == b,
{
    let n = path_steps(a, b) as int;
    if n > 0 {
        lemma_path_offset(0, b.x - a.x, n);
        lemma_path_offset(0, b.y - a.y, n);
        lemma_path_offset(n, b.x - a.x, n);
        lemma_path_offset(n, b.y - a.y, n);
    }
}

/// There is at most one last inside step.
pub proof fn lemma_last_inside_step_unique(boundary: Entity, a: GridPoint, b: GridPoint, k: int)
    requires
        is_last_inside_step(boundary, a, b, k),
    ensures
        last_inside_step(boundary, a, b) == k,
        !no_inside_step(boundary, a, b),
{
    let other = last_inside_step(boundary, a, b);
    assert(is_last_inside_step(boundary, a, b, other));
    if other < k {
        assert(!contains(boundary, path_point(a, b, k)));
    } else if k < other {
        assert(!contains(boundary, path_point(a, b, other)));
    }
}

/// Computes the position `k` steps along the way from `start` to `target`.
fn path_position(start: &Position, target: &Position, n: i64, k: i64) -> (p: Position)
    requires
        n == path_steps(start@, target@),
        0 <= k <= n,
    ensures
        p@ == path_point(start@, target@, k as int),
{
    if n == 0 {
        return *start;
    }
    let dx: i128 = target.x as i128 - start.x as i128;
    let dy: i128 = target.y as i128 - start.y as i128;
    proof {
        lemma_path_offset(k as int, dx as int, n as int);
        lemma_path_offset(k as int, dy as int, n as int);
        assert(-0x1_0000_0000_0000_0000 <= k * dx <= 0x1_0000_0000_0000_0000) by (nonlinear_arith)
            requires
                0 <= k <= 0x1_0000_0000,
                -0x1_0000_0000 <= dx <= 0x1_0000_0000,
        ;
        assert(-0x1_0000_0000_0000_0000 <= k * dy <= 0x1_0000_0000_0000_0000) by (nonlinear_arith)
            requires
                0 <= k <= 0x1_0000_0000,
                -0x1_0000_0000 <= dy <= 0x1_0000_0000,
        ;
    }
    let off_x: i128 = compute_round_div(k as i128 * dx, n as i128);
    let off_y: i128 = compute_round_div(k as i128 * dy, n as i128);
    Position { x: (start.x as i128 + off_x) as i32, y: (start.y as i128 + off_y) as i32 }
}

/// Counts the steps of the way from `start` to `target`.
fn count_path_steps(start: &Position, target: &Position) -> (n: i64)
    ensures
        n == path_steps(start@, target@),
        0 <= n <= 0xFFFF_FFFF,
{
    let dx: i64 = target.x as i64 - start.x as i64;
    let dy: i64 = target.y as i64 - start.y as i64;
    let ax: i64 = if dx < 0 {
        -dx
    } else {
        dx
    };
    let ay: i64 = if dy < 0 {
        -dy
    } else {
        dy
    };
    if ax >= ay {
        ax
    } else {
        ay
    }
}

/// Finds where an entity that set out from `start` for `target` comes to
/// stand: at the last place on its way that is inside the boundary.
pub fn resolve_position(start: &Position, target: &Position, boundary: &Entity) -> (r: Result<
    Position,
    GeometryError,
>)
    ensures
        match r {
            Ok(p) => resolved_position(start@, target@, *boundary) == Ok::<GridPoint, GeometryError>(p@)
                && contains(*boundary, p@),
            Err(e) => resolved_position(start@, target@, *boundary) == Err::<GridPoint, GeometryError>(e),
        },
{
    let n: i64 = count_path_steps(start, target);
    let first: i64 = if n > RESOLUTION_BUDGET {
        n - RESOLUTION_BUDGET
    } else {
        0
    };
    let mut k: i64 = n;
    loop
        invariant
            n == path_steps(start@, target@),
            first == first_examined_step(start@, target@),
            first <= k <= n <= 0xFFFF_FFFF,
            forall|j: int|
                k < j <= n ==> !contains(*boundary, #[trigger] path_point(start@, target@, j)),
        decreases k - first,
    {
        let candidate = path_position(start, target, n, k);
        match position_inside(&candidate, boundary) {
            Err(e) => {
                return Err(e);
            },
            Ok(true) => {
                proof {
                    lemma_last_inside_step_unique(*boundary, start@, target@, k as int);
                }
                return Ok(candidate);
            },
            Ok(false) => {},
        }
        if k == first {
            return Err(GeometryError::BoundaryResolutionFailed);
        }
        k = k - 1;
    }
}

impl Entity {
    /// Puts an entity whose move from `start` has taken it out of the
    /// boundary back at the last place on its way that is inside. An entity
    /// that is inside stays where it is. On failure nothing changes.
    pub fn move_to_next_valid_position(&mut self, start: &Position, boundary: &Entity) -> (r: Result<
        (),
        GeometryError,
    >)
        ensures
            match r {
                Ok(_) => {
                    &&& resolved_position(start@, old(self).position@, *boundary) == Ok::<
                        GridPoint,
                        GeometryError,
                    >(final(self).position@)
                    &&& contains(*boundary, final(self).position@)
                    &&& *final(self) == (Entity { position: final(self).position, ..*old(self) })
                },
                Err(e) => {
                    &&& resolved_position(start@, old(self).position@, *boundary) == Err::<
                        GridPoint,
                        GeometryError,
                    >(e)
                    &&& *final(self) == *old(self)
                },
            },
    {
        match resolve_position(start, &self.position, boundary) {
            Ok(p) => {
                self.position = p;
                Ok(())
            },
            Err(e) => Err(e),
        }
    }
}

/// Wherever a position is found for an entity, the boundary encloses it,
/// whatever the start and the target of the move.
pub proof fn lemma_resolved_position_inside(
    start: GridPoint,
    target: GridPoint,
    boundary: Entity,
    found: GridPoint,
)
    requires
        resolved_position(start, target, boundary) == Ok::<GridPoint, GeometryError>(found),
    ensures
        contains(boundary, found),
{
    lemma_some_step_is_last(boundary, start, target, path_steps(start, target) as int);
}

/// If none of the steps after `k` is inside and some step that is looked at
/// is, then one of them is the last inside step.
proof fn lemma_some_step_is_last(boundary: Entity, a: GridPoint, b: GridPoint, k: int)
    requires
        !no_inside_step(boundary, a, b),
        first_examined_step(a, b) <= k <= path_steps(a, b),
        forall|j: int| k < j <= path_steps(a, b) ==> !contains(boundary, #[trigger] path_point(a, b, j)),
    ensures
        is_last_inside_step(boundary, a, b, last_inside_step(boundary, a, b)),
    decreases k - first_examined_step(a, b),
{
    if contains(boundary, path_point(a, b, k)) {
        lemma_last_inside_step_unique(boundary, a, b, k);
    } else {
        if k == first_examined_step(a, b) {
            assert(no_inside_step(boundary, a, b));
        } else {
            lemma_some_step_is_last(boundary, a, b, k - 1);
        }
    }
}

/// The position that is found is, of all the places on the way that are
/// inside the boundary, the one closest to the target: it is a step of the
/// way, and every later step, up to the target itself, is outside.
pub proof fn lemma_resolved_position_is_last(start: GridPoint, target: GridPoint, boundary: Entity)
    requires
        resolved_position(start, target, boundary) is Ok,
    ensures
        is_last_inside_step(boundary, start, target, last_inside_step(boundary, start, target)),
        resolved_position(start, target, boundary) == Ok::<GridPoint, GeometryError>(
            path_point(start, target, last_inside_step(boundary, start, target)),
        ),
{
    lemma_some_step_is_last(boundary, start, target, path_steps(start, target) as int);
}

/// A target inside the boundary stands.
pub proof fn lemma_target_inside_stands(start: GridPoint, target: GridPoint, boundary: Entity)
    requires
        contains(boundary, target),
    ensures
        resolved_position(start, target, boundary) == Ok::<GridPoint, GeometryError>(target),
{
    lemma_path_ends(start, target);
    lemma_last_inside_step_unique(boundary, start, target, path_steps(start, target) as int);
}

/// An entity that set out from inside the boundary and has not gone
/// farther than the budget of steps is always found a position.
pub proof fn lemma_start_inside_is_resolved(start: GridPoint, target: GridPoint, boundary: Entity)
    requires
        contains(boundary, start),
        path_steps(start, target) <= RESOLUTION_BUDGET,
    ensures
        resolved_position(start, target, boundary) is Ok,
{
    lemma_path_ends(start, target);
    assert(contains(boundary, path_point(start, target, 0)));
}

/// Every step of the way between two positions is a position.
pub proof fn lemma_path_point_is_position(a: GridPoint, b: GridPoint, k: int)
    requires
        a.is_position(),
        b.is_position(),
        0 <= k <= path_steps(a, b),
    ensures
        path_point(a, b, k).is_position(),
{
    let n = path_steps(a, b) as int;
    if n > 0 {
        lemma_path_offset(k, b.x - a.x, n);
        lemma_path_offset(k, b.y - a.y, n);
    }
}

} // verus!
