use vstd::prelude::*;

verus! {

/// Ticks per field unit: a coordinate `x` stands for `x / UNIT` field units.
pub const UNIT: i64 = 1_000_000;

/// The largest magnitude a coordinate or a length may have (2^52 ticks).
pub const MAX_COORD: i64 = 4_503_599_627_370_496;

/// A point, or a displacement, in ticks.
#[derive(Clone, Copy, Debug, PartialEq, Eq, Structural)]
pub struct Point {
    pub x: i64,
    pub y: i64,
}

pub open spec fn coord_ok(v: int) -> bool {
    -MAX_COORD <= v <= MAX_COORD
}

pub open spec fn point_ok(p: Point) -> bool {
    coord_ok(p.x as int) && coord_ok(p.y as int)
}

/// Squared Euclidean distance between two points.
pub open spec fn dist_sq(p: Point, q: Point) -> int {
    (p.x - q.x) * (p.x - q.x) + (p.y - q.y) * (p.y - q.y)
}

/// `p` and `q` lie within `0.99 * d_sep` of each other.
pub open spec fn too_close(p: Point, q: Point, d_sep: int) -> bool {
    10000 * dist_sq(p, q) <= 9801 * (d_sep * d_sep)
}

/// Floor division of `n` by a positive `d`.
pub open spec fn floor_div(n: int, d: int) -> int {
    n / d
}

/// Squared distance between two points whose coordinates are in range.
pub fn distance_sq(p: Point, q: Point) -> (r: u128)
    requires
        point_ok(p),
        point_ok(q),
    ensures
        r as int == dist_sq(p, q),
        dist_sq(p, q) <= 8 * MAX_COORD * MAX_COORD,
{
    let dx: i128 = p.x as i128 - q.x as i128;
    let dy: i128 = p.y as i128 - q.y as i128;
    proof {
        lemma_square_bound(dx as int, 2 * MAX_COORD);
        lemma_square_bound(dy as int, 2 * MAX_COORD);
    }
    let sx: i128 = dx * dx;
    let sy: i128 = dy * dy;
    (sx + sy) as u128
}

/// Whether `p` and `q` lie within `0.99 * d_sep` of each other.
pub fn is_too_close(p: Point, q: Point, d_sep: i64) -> (r: bool)
    requires
        point_ok(p),
        point_ok(q),
        0 < d_sep <= MAX_COORD,
    ensures
        r == too_close(p, q, d_sep as int),
{
    let d2 = distance_sq(p, q);
    let ds: u128 = d_sep as u128;
    proof {
        lemma_square_bound(p.x - q.x, 2 * MAX_COORD);
        lemma_square_bound(p.y - q.y, 2 * MAX_COORD);
        lemma_square_bound(ds as int, MAX_COORD as int);
    }
    let lhs: u128 = 10000 * d2;
    let rhs: u128 = 9801 * (ds * ds);
    lhs <= rhs
}

/// Floor division of `n` by a positive `d`.
pub fn div_floor(n: i128, d: i128) -> (q: i128)
    requires
        0 < d <= 0x1_0000_0000_0000_0000_0000_0000_0000,
        -0x1_0000_0000_0000_0000_0000_0000_0000 <= n <= 0x1_0000_0000_0000_0000_0000_0000_0000,
    ensures
        q as int == floor_div(n as int, d as int),
{
    if n >= 0 {
        let q = n / d;
        q
    } else {
        let m: i128 = -n;
        let t: i128 = (m + d - 1) / d;
        proof {
            lemma_neg_floor(n as int, d as int);
        }
        -t
    }
}

/// A value lies between `d * (v / d)` and the start of the next cell.
pub proof fn lemma_cell_bounds(v: int, d: int)
    requires
        d > 0,
    ensures
        d * (v / d) <= v < d * (v / d) + d,
{
    vstd::arithmetic::div_mod::lemma_fundamental_div_mod(v, d);
}

/// Two points whose cells are two or more apart on one axis are not too close.
pub proof fn lemma_far_cells(p: Point, q: Point, d: int)
    requires
        d > 0,
        (p.x as int) / d >= (q.x as int) / d + 2 || (q.x as int) / d >= (p.x as int) / d + 2
            || (p.y as int) / d >= (q.y as int) / d + 2 || (q.y as int) / d >= (p.y as int) / d + 2,
    ensures
        !too_close(p, q, d),
{
    let (px, py, qx, qy) = (p.x as int, p.y as int, q.x as int, q.y as int);
    lemma_cell_bounds(px, d);
    lemma_cell_bounds(qx, d);
    lemma_cell_bounds(py, d);
    lemma_cell_bounds(qy, d);
    let dx = px - qx;
    let dy = py - qy;
    assert(dx > d || -dx > d || dy > d || -dy > d) by (nonlinear_arith)
        requires
            d > 0,
            d * (px / d) <= px < d * (px / d) + d,
            d * (qx / d) <= qx < d * (qx / d) + d,
            d * (py / d) <= py < d * (py / d) + d,
            d * (qy / d) <= qy < d * (qy / d) + d,
            px / d >= qx / d + 2 || qx / d >= px / d + 2 || py / d >= qy / d + 2 || qy / d >= py / d + 2,
            dx == px - qx,
            dy == py - qy,
    ;
    assert(dist_sq(p, q) > d * d) by (nonlinear_arith)
        requires
            d > 0,
            dx > d || -dx > d || dy > d || -dy > d,
            dist_sq(p, q) == dx * dx + dy * dy,
    ;
}

/// Closeness does not depend on the order of the two points.
pub proof fn lemma_too_close_symmetric(p: Point, q: Point, d: int)
    ensures
        too_close(p, q, d) == too_close(q, p, d),
{
    assert(dist_sq(p, q) == dist_sq(q, p)) by (nonlinear_arith);
}

proof fn lemma_square_bound(v: int, b: int)
    requires
        0 <= b,
        -b <= v <= b,
    ensures
        0 <= v * v <= b * b,
{
    assert(0 <= v * v <= b * b) by (nonlinear_arith)
        requires -b <= v <= b, 0 <= b;
}

proof fn lemma_neg_floor(n: int, d: int)
    requires
        d > 0,
        n < 0,
    ensures
        n / d == -((-n + d - 1) / d),
{
    let t = (-n + d - 1) / d;
    let s = (-n + d - 1) % d;
    vstd::arithmetic::div_mod::lemma_fundamental_div_mod(-n + d - 1, d);
    // -n + d - 1 == d * t + s, 0 <= s < d  ==>  n == d * (-t) + (d - 1 - s)
    assert(n == d * (-t) + (d - 1 - s)) by (nonlinear_arith)
        requires -n + d - 1 == d * t + s;
    vstd::arithmetic::div_mod::lemma_fundamental_div_mod_converse(n, d, -t, d - 1 - s);
}

} // verus!

verus! {

/// Why a field or a grid could not be built.
#[derive(Clone, Copy, Debug, PartialEq, Eq, Structural)]
pub enum ConfigError {
    /// A width or a height of zero.
    ZeroSizedField,
    /// A separation that is not positive, or beyond `MAX_COORD`.
    BadSeparation,
    /// A number of directions other than `width * height`.
    DirectionCount,
    /// A direction with a component beyond `UNIT` in magnitude.
    DirectionOutOfRange,
    /// A grid larger than memory can index.
    TooLarge,
}

} // verus!
