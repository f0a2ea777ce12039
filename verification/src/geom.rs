//! Integer drawing-space points and the distance measures the engine uses.
//!
//! The engine works in a bottom-left-origin integer coordinate space, one
//! unit per surface pixel. Raw device events use a top-left origin; the
//! conversion `y' = height - y` happens when a point enters the engine.

use vstd::prelude::*;

verus! {

/// Decimation threshold: a new point is accepted only if its Manhattan
/// distance to the last accepted point exceeds this many units.
pub const EPSILON: i64 = 5;

/// Bound on the magnitude of device-space coordinates (and of the surface
/// height) the engine accepts; far beyond any real screen, and small enough
/// that every distance computation fits comfortably in `i64`.
pub const MAX_COORD: i64 = 0x100_0000;

/// One point of a stroke, in drawing space (bottom-left origin).
#[derive(Clone, Copy, PartialEq, Eq, Structural, Debug)]
pub struct Point {
    pub x: i64,
    pub y: i64,
}

/// A raw device-space coordinate pair is admissible if both coordinates
/// are at most [`MAX_COORD`] in magnitude.
pub open spec fn device_in_bounds(x: i64, y: i64) -> bool {
    -MAX_COORD <= x <= MAX_COORD && -MAX_COORD <= y <= MAX_COORD
}

/// Points stored by the engine: a device point whose `y` was flipped
/// against a height of at most [`MAX_COORD`] stays within twice the bound.
pub open spec fn point_in_bounds(p: Point) -> bool {
    -2 * MAX_COORD <= p.x <= 2 * MAX_COORD && -2 * MAX_COORD <= p.y <= 2 * MAX_COORD
}

/// Manhattan distance `|dx| + |dy|` between two points.
pub open spec fn manhattan(a: Point, b: Point) -> int {
    abs_int(a.x - b.x) + abs_int(a.y - b.y)
}

/// Squared Euclidean distance between two points.
pub open spec fn dist_sq(a: Point, b: Point) -> int {
    (a.x - b.x) * (a.x - b.x) + (a.y - b.y) * (a.y - b.y)
}

pub open spec fn abs_int(x: int) -> int {
    if x < 0 {
        -x
    } else {
        x
    }
}

/// Manhattan distance of two in-bounds points.
pub fn manhattan_dist(a: Point, b: Point) -> (r: i64)
    requires
        point_in_bounds(a),
        point_in_bounds(b),
    ensures
        r == manhattan(a, b),
{
    let dx: i64 = if a.x >= b.x {
        a.x - b.x
    } else {
        b.x - a.x
    };
    let dy: i64 = if a.y >= b.y {
        a.y - b.y
    } else {
        b.y - a.y
    };
    dx + dy
}

/// Squared Euclidean distance of two in-bounds points.
pub fn euclid_dist_sq(a: Point, b: Point) -> (r: i64)
    requires
        point_in_bounds(a),
        point_in_bounds(b),
    ensures
        r == dist_sq(a, b),
{
    let dx: i64 = a.x - b.x;
    let dy: i64 = a.y - b.y;
    proof {
        lemma_square_bound(dx as int);
        lemma_square_bound(dy as int);
    }
    dx * dx + dy * dy
}

/// A value of at most `4 * MAX_COORD` in magnitude has a square of at
/// most `16 * MAX_COORD * MAX_COORD`, far below `i64::MAX`.
proof fn lemma_square_bound(v: int)
    requires
        -4 * MAX_COORD <= v <= 4 * MAX_COORD,
    ensures
        0 <= v * v <= 16 * (MAX_COORD as int) * (MAX_COORD as int),
{
    assert(0 <= v * v <= 16 * (MAX_COORD as int) * (MAX_COORD as int)) by (nonlinear_arith)
        requires
            -4 * MAX_COORD <= v <= 4 * MAX_COORD,
    ;
}

} // verus!
