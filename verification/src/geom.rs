//! Plane geometry over fixed-point integer coordinates.

use vstd::prelude::*;

verus! {

/// A 2D point or vector with fixed-point integer components.
#[derive(Clone, Copy, PartialEq, Eq, Structural, Debug)]
pub struct Vec2i {
    pub x: i64,
    pub y: i64,
}

impl Vec2i {
    pub fn new(x: i64, y: i64) -> (r: Vec2i)
        ensures
            r == (Vec2i { x, y }),
    {
        Vec2i { x, y }
    }
}

/// Squared Euclidean distance, exactly.
pub open spec fn dist2_spec(a: Vec2i, b: Vec2i) -> int {
    (a.x - b.x) * (a.x - b.x) + (a.y - b.y) * (a.y - b.y)
}

/// Squared length of a vector, exactly.
pub open spec fn norm2_spec(v: Vec2i) -> int {
    v.x * v.x + v.y * v.y
}

/// Squared distance between two points whose coordinates stay below 2^61 in
/// magnitude, so that the exact value fits an `i128`.
pub fn dist2(a: Vec2i, b: Vec2i) -> (r: i128)
    requires
        -0x2000_0000_0000_0000 <= a.x - b.x <= 0x2000_0000_0000_0000,
        -0x2000_0000_0000_0000 <= a.y - b.y <= 0x2000_0000_0000_0000,
    ensures
        r == dist2_spec(a, b),
        r >= 0,
{
    let dx: i128 = a.x as i128 - b.x as i128;
    let dy: i128 = a.y as i128 - b.y as i128;
    proof {
        assert(0 <= dx * dx <= 0x400_0000_0000_0000_0000_0000_0000_0000int
            && 0 <= dy * dy <= 0x400_0000_0000_0000_0000_0000_0000_0000int) by (nonlinear_arith)
            requires
                -0x2000_0000_0000_0000 <= dx <= 0x2000_0000_0000_0000,
                -0x2000_0000_0000_0000 <= dy <= 0x2000_0000_0000_0000,
        ;
    }
    dx * dx + dy * dy
}

/// Squared length; any pair of components above `i64::MIN` fits an `i128`.
pub fn norm2(v: Vec2i) -> (r: i128)
    requires
        v.x != i64::MIN,
        v.y != i64::MIN,
    ensures
        r == norm2_spec(v),
        r >= 0,
{
    let x: i128 = v.x as i128;
    let y: i128 = v.y as i128;
    proof {
        assert(0 <= x * x <= 0x3fff_ffff_ffff_ffff_0000_0000_0000_0001int
            && 0 <= y * y <= 0x3fff_ffff_ffff_ffff_0000_0000_0000_0001int) by (nonlinear_arith)
            requires
                -0x7fff_ffff_ffff_ffff <= x <= 0x7fff_ffff_ffff_ffff,
                -0x7fff_ffff_ffff_ffff <= y <= 0x7fff_ffff_ffff_ffff,
        ;
    }
    x * x + y * y
}

/// If a squared quantity stays under `r * r` with `r >= 0`, the quantity
/// itself stays under `r` in magnitude.
pub proof fn lemma_square_bound(a: int, r: int)
    requires
        r >= 0,
        a * a < r * r,
    ensures
        -r < a < r,
{
    assert(-r < a < r) by (nonlinear_arith)
        requires
            r >= 0,
            a * a < r * r,
    ;
}

/// Two points within distance `r` of one another are within `r` on each axis.
pub proof fn lemma_dist2_component_bounds(a: Vec2i, b: Vec2i, r: int)
    requires
        r >= 0,
        dist2_spec(a, b) < r * r,
    ensures
        -r < a.x - b.x < r,
        -r < a.y - b.y < r,
{
    let dx = a.x - b.x;
    let dy = a.y - b.y;
    assert(dx * dx < r * r && dy * dy < r * r) by (nonlinear_arith)
        requires
            dx * dx + dy * dy < r * r,
    ;
    lemma_square_bound(dx, r);
    lemma_square_bound(dy, r);
}

} // verus!
