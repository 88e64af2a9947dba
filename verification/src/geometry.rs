//! Geometry primitives over the meaning grid.
//!
//! Grid positions are held as scaled integer coordinates, so that vector
//! sums, orientation tests and squared radii are exact.  Transcendental
//! quantities (the polar angle of a point) are not computed here.

use vstd::prelude::*;

verus! {

/// Coordinates are kept within this bound so that differences and
/// products of two coordinates fit in `i128` arithmetic.
pub const GRID_BOUND: i64 = 0x2000_0000_0000_0000;

/// A position on the meaning grid, held as scaled integer coordinates.
#[derive(Debug, Clone, Copy, PartialEq, Eq, Structural)]
pub struct Point2D {
    pub x: i64,
    pub y: i64,
}

/// A directed segment between two grid positions.
#[derive(Debug, Clone, Copy, PartialEq, Eq, Structural)]
pub struct Vector2D {
    pub start: Point2D,
    pub end: Point2D,
}

/// A point whose coordinates stay within the grid bound.
pub open spec fn point_in_grid(p: Point2D) -> bool {
    -GRID_BOUND <= p.x <= GRID_BOUND && -GRID_BOUND <= p.y <= GRID_BOUND
}

/// Adds two vectors component-wise.
pub fn vector_addition_2d(vector1: &Vector2D, vector2: &Vector2D) -> (r: Vector2D)
    requires
        i64::MIN <= vector1.start.x + vector2.start.x <= i64::MAX,
        i64::MIN <= vector1.start.y + vector2.start.y <= i64::MAX,
        i64::MIN <= vector1.end.x + vector2.end.x <= i64::MAX,
        i64::MIN <= vector1.end.y + vector2.end.y <= i64::MAX,
    ensures
        r.start.x == vector1.start.x + vector2.start.x,
        r.start.y == vector1.start.y + vector2.start.y,
        r.end.x == vector1.end.x + vector2.end.x,
        r.end.y == vector1.end.y + vector2.end.y,
{
    let start = Point2D {
        x: vector1.start.x + vector2.start.x,
        y: vector1.start.y + vector2.start.y,
    };
    let end = Point2D {
        x: vector1.end.x + vector2.end.x,
        y: vector1.end.y + vector2.end.y,
    };
    Vector2D { start, end }
}

/// A square is non-negative and monotone in the absolute value.
pub proof fn lemma_abs_square_bound(a: int, b: int)
    requires
        -b <= a <= b,
    ensures
        0 <= a * a <= b * b,
{
    assert(0 <= a * a <= b * b) by (nonlinear_arith)
        requires -b <= a <= b;
}

/// A product of two bounded factors is bounded by the squared bound.
pub proof fn lemma_abs_mul_bound(a: int, b: int, bound: int)
    requires
        -bound <= a <= bound,
        -bound <= b <= bound,
        bound >= 0,
    ensures
        -(bound * bound) <= a * b <= bound * bound,
{
    assert(-(bound * bound) <= a * b <= bound * bound) by (nonlinear_arith)
        requires -bound <= a <= bound && -bound <= b <= bound && bound >= 0;
}

/// The squared length of the segment from `start` to `end`.
pub open spec fn spec_magnitude_squared(v: Vector2D) -> int {
    (v.end.x - v.start.x) * (v.end.x - v.start.x) + (v.end.y - v.start.y) * (v.end.y - v.start.y)
}

/// Squared magnitude of a vector, exact in integer arithmetic.
pub fn vector_magnitude_squared_2d(vector: &Vector2D) -> (r: i128)
    requires
        point_in_grid(vector.start),
        point_in_grid(vector.end),
    ensures
        r == spec_magnitude_squared(*vector),
        r >= 0,
{
    let dx: i128 = vector.end.x as i128 - vector.start.x as i128;
    let dy: i128 = vector.end.y as i128 - vector.start.y as i128;
    proof {
        lemma_abs_square_bound(dx as int, 2 * GRID_BOUND as int);
        lemma_abs_square_bound(dy as int, 2 * GRID_BOUND as int);
    }
    dx * dx + dy * dy
}

/// Floor of the square root of a non-negative number.
pub fn isqrt_u128(n: u128) -> (r: u128)
    ensures
        r * r <= n,
        n < (r + 1) * (r + 1),
{
    let mut lo: u128 = 0;
    let mut hi: u128 = 0xFFFF_FFFF_FFFF_FFFF;
    proof {
        assert((hi + 1) * (hi + 1) > n) by (nonlinear_arith)
            requires hi == 0xFFFF_FFFF_FFFF_FFFFu128, n <= u128::MAX;
    }
    while lo < hi
        invariant
            lo <= hi,
            hi <= 0xFFFF_FFFF_FFFF_FFFF,
            lo * lo <= n,
            n < (hi + 1) * (hi + 1),
        decreases hi - lo,
    {
        let mid: u128 = lo + (hi - lo + 1) / 2;
        assert(lo < mid <= hi);
        proof {
            lemma_abs_square_bound(mid as int, 0xFFFF_FFFF_FFFF_FFFF as int);
        }
        if mid * mid <= n {
            lo = mid;
        } else {
            hi = mid - 1;
        }
    }
    lo
}

/// The radius part of the polar form of a point: the floor of the
/// distance from the origin.  The angle part needs transcendental
/// arithmetic and is left to the caller.
pub fn polar_radius(point: &Point2D) -> (r: u128)
    requires
        point_in_grid(*point),
    ensures
        r * r <= point.x * point.x + point.y * point.y,
        point.x * point.x + point.y * point.y < (r + 1) * (r + 1),
{
    let x: i128 = point.x as i128;
    let y: i128 = point.y as i128;
    proof {
        lemma_abs_square_bound(x as int, GRID_BOUND as int);
        lemma_abs_square_bound(y as int, GRID_BOUND as int);
    }
    let sq: i128 = x * x + y * y;
    isqrt_u128(sq as u128)
}

/// Turns each point into a position vector anchored at the origin.
pub fn point_vec_to_position_vec_2d(vector: &Vec<Point2D>) -> (r: Vec<Vector2D>)
    ensures
        r@.len() == vector@.len(),
        forall|i: int| 0 <= i < vector@.len() ==> r@[i] == (Vector2D {
            start: Point2D { x: 0, y: 0 },
            end: vector@[i],
        }),
{
    let mut result: Vec<Vector2D> = Vec::new();
    let mut i: usize = 0;
    while i < vector.len()
        invariant
            i <= vector@.len(),
            result@.len() == i,
            forall|j: int| 0 <= j < i ==> result@[j] == (Vector2D {
                start: Point2D { x: 0, y: 0 },
                end: vector@[j],
            }),
        decreases vector@.len() - i,
    {
        result.push(Vector2D { start: Point2D { x: 0, y: 0 }, end: vector[i] });
        i = i + 1;
    }
    result
}

/// Collects the end point of each vector.
pub fn position_vec_to_point_vec_2d(vector: &Vec<Vector2D>) -> (r: Vec<Point2D>)
    ensures
        r@.len() == vector@.len(),
        forall|i: int| 0 <= i < vector@.len() ==> r@[i] == vector@[i].end,
{
    let mut result: Vec<Point2D> = Vec::new();
    let mut i: usize = 0;
    while i < vector.len()
        invariant
            i <= vector@.len(),
            result@.len() == i,
            forall|j: int| 0 <= j < i ==> result@[j] == vector@[j].end,
        decreases vector@.len() - i,
    {
        result.push(Point2D { x: vector[i].end.x, y: vector[i].end.y });
        i = i + 1;
    }
    result
}

} // verus!
