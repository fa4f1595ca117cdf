//! Fixed-point positions and the distances between them.

use vstd::prelude::*;

verus! {

/// A point of the plane, in position units.
#[derive(Clone, Copy, Debug, PartialEq, Eq, Structural)]
pub struct Vec2 {
    pub x: i32,
    pub y: i32,
}

/// Square of the Euclidean distance between two points.
pub open spec fn dist_sq(a: Vec2, b: Vec2) -> int {
    (a.x - b.x) * (a.x - b.x) + (a.y - b.y) * (a.y - b.y)
}

/// Whether `a` lies within `range` of `b`, the boundary included.
pub open spec fn within_range(a: Vec2, b: Vec2, range: int) -> bool {
    dist_sq(a, b) <= range * range
}

proof fn lemma_square_bound(d: int, bound: int)
    requires
        0 <= d <= bound,
    ensures
        0 <= d * d <= bound * bound,
{
    assert(0 <= d * d <= bound * bound) by (nonlinear_arith)
        requires
            0 <= d <= bound,
    ;
}

/// The absolute difference of two coordinates.
fn span(a: i32, b: i32) -> (d: u64)
    ensures
        d == if a >= b { a - b } else { b - a },
        d <= 0xffff_ffff,
        d * d == (a - b) * (a - b),
{
    let wide_a: i64 = a as i64;
    let wide_b: i64 = b as i64;
    let d: u64 = if wide_a >= wide_b {
        (wide_a - wide_b) as u64
    } else {
        (wide_b - wide_a) as u64
    };
    assert(d * d == (a - b) * (a - b)) by (nonlinear_arith)
        requires
            d == if a >= b { a - b } else { b - a },
    ;
    d
}

impl Vec2 {
    pub fn new(x: i32, y: i32) -> (point: Self)
        ensures
            point.x == x,
            point.y == y,
    {
        Vec2 { x, y }
    }

    /// Square of the distance to `other`.
    pub fn distance_squared(&self, other: &Vec2) -> (d: u128)
        ensures
            d == dist_sq(*self, *other),
    {
        let dx: u64 = span(self.x, other.x);
        let dy: u64 = span(self.y, other.y);
        proof {
            lemma_square_bound(dx as int, 0xffff_ffff);
            lemma_square_bound(dy as int, 0xffff_ffff);
        }
        let wide_dx: u128 = dx as u128;
        let wide_dy: u128 = dy as u128;
        wide_dx * wide_dx + wide_dy * wide_dy
    }

    /// Whether this point lies within `range` of `other`.
    pub fn is_within(&self, other: &Vec2, range: u32) -> (near: bool)
        ensures
            near == within_range(*self, *other, range as int),
    {
        let d: u128 = self.distance_squared(other);
        let r: u128 = range as u128;
        proof {
            lemma_square_bound(r as int, 0xffff_ffff);
        }
        d <= r * r
    }
}

} // verus!
