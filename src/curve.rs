use crate::geometry::{Point, MAX_COORD, point_ok, dist_sq, floor_div, div_floor, distance_sq};
use vstd::prelude::*;

verus! {

/// One traced streamline: its samples in order, each with the half it was
/// traced in (0 backward, 1 forward).
pub struct Curve {
    curve_id: u32,
    points: Vec<Point>,
    directions: Vec<u8>,
    steps_taken: u32,
}

impl Curve {
    pub closed spec fn spec_id(&self) -> int {
        self.curve_id as int
    }

    pub closed spec fn samples(&self) -> Seq<Point> {
        self.points@
    }

    pub closed spec fn tags(&self) -> Seq<u8> {
        self.directions@
    }

    pub closed spec fn wf(&self) -> bool {
        &&& self.points@.len() == self.steps_taken
        &&& self.directions@.len() == self.steps_taken
    }

    /// An empty curve with room reserved for `n_steps` samples.
    pub fn new(id: u32, n_steps: u32) -> (c: Curve)
        ensures
            c.wf(),
            c.spec_id() == id,
            c.samples() == Seq::<Point>::empty(),
            c.tags() == Seq::<u8>::empty(),
    {
        Curve {
            curve_id: id,
            points: Vec::with_capacity(n_steps as usize),
            directions: Vec::with_capacity(n_steps as usize),
            steps_taken: 0,
        }
    }

    /// Appends the sample `(x, y)` traced in half `direction_id`.
    pub fn insert_step(&mut self, x_coord: i64, y_coord: i64, direction_id: u8)
        requires
            old(self).wf(),
            old(self).samples().len() < u32::MAX,
        ensures
            final(self).wf(),
            final(self).spec_id() == old(self).spec_id(),
            final(self).samples() == old(self).samples().push(Point { x: x_coord, y: y_coord }),
            final(self).tags() == old(self).tags().push(direction_id),
    {
        self.points.push(Point { x: x_coord, y: y_coord });
        self.directions.push(direction_id);
        self.steps_taken = self.steps_taken + 1;
    }

    pub fn curve_id(&self) -> (id: u32)
        ensures
            id == self.spec_id(),
    {
        self.curve_id
    }

    /// How many samples the curve holds.
    pub fn steps_taken(&self) -> (n: u32)
        requires
            self.wf(),
        ensures
            n == self.samples().len(),
    {
        self.steps_taken
    }

    /// The sample at position `i`.
    pub fn point(&self, i: usize) -> (p: Point)
        requires
            self.wf(),
            i < self.samples().len(),
        ensures
            p == self.samples()[i as int],
    {
        self.points[i]
    }

    /// The half in which the sample at position `i` was traced.
    pub fn direction(&self, i: usize) -> (d: u8)
        requires
            self.wf(),
            i < self.samples().len(),
        ensures
            d == self.tags()[i as int],
    {
        self.directions[i]
    }
}

/// Candidate seeds derived from one curve, in order.
pub struct SeedPointsQueue {
    points: Vec<Point>,
    capacity: u64,
}

impl SeedPointsQueue {
    pub closed spec fn seeds(&self) -> Seq<Point> {
        self.points@
    }

    pub closed spec fn spec_capacity(&self) -> int {
        self.capacity as int
    }

    /// An empty queue with room for two seeds per step.
    pub fn new(n_steps: u32) -> (q: SeedPointsQueue)
        ensures
            q.seeds() == Seq::<Point>::empty(),
            q.spec_capacity() == 2 * n_steps,
    {
        let capacity: u64 = 2 * (n_steps as u64);
        SeedPointsQueue { points: Vec::with_capacity(capacity as usize), capacity }
    }

    pub fn is_empty(&self) -> (r: bool)
        ensures
            r == (self.seeds().len() == 0),
    {
        self.points.len() == 0
    }

    pub fn len(&self) -> (n: usize)
        ensures
            n == self.seeds().len(),
    {
        self.points.len()
    }

    /// The seed at position `i`.
    pub fn point(&self, i: usize) -> (p: Point)
        requires
            i < self.seeds().len(),
        ensures
            p == self.seeds()[i as int],
    {
        self.points[i]
    }

    pub fn insert_coord(&mut self, x: i64, y: i64)
        ensures
            final(self).seeds() == old(self).seeds().push(Point { x, y }),
            final(self).spec_capacity() == old(self).spec_capacity(),
    {
        self.points.push(Point { x, y });
    }

    pub fn insert_point(&mut self, p: Point)
        ensures
            final(self).seeds() == old(self).seeds().push(p),
            final(self).spec_capacity() == old(self).spec_capacity(),
    {
        self.points.push(p);
    }
}

/// `r` is the integer square root of `n`.
pub open spec fn is_sqrt(n: int, r: int) -> bool {
    0 <= r && r * r <= n < (r + 1) * (r + 1)
}

/// The integer square root of a non-negative `n`.
pub open spec fn sqrt_floor(n: int) -> int {
    choose|r: int| is_sqrt(n, r)
}

proof fn lemma_sqrt_unique(n: int, a: int, b: int)
    requires
        is_sqrt(n, a),
        is_sqrt(n, b),
    ensures
        a == b,
{
    if a < b {
        assert(false) by (nonlinear_arith)
            requires is_sqrt(n, a), is_sqrt(n, b), a < b;
    } else if b < a {
        assert(false) by (nonlinear_arith)
            requires is_sqrt(n, a), is_sqrt(n, b), b < a;
    }
}

/// The integer square root of `n`, by bisection.
pub fn isqrt(n: u128) -> (r: u128)
    requires
        n < 0x1000_0000_0000_0000_0000_0000_0000,
    ensures
        r as int == sqrt_floor(n as int),
        is_sqrt(n as int, r as int),
{
    let mut lo: u128 = 0;
    let mut hi: u128 = 0x40_0000_0000_0000;
    assert(hi * hi == 0x1000_0000_0000_0000_0000_0000_0000);
    while hi - lo > 1
        invariant
            lo < hi <= 0x40_0000_0000_0000,
            lo * lo <= n,
            n < hi * hi,
        decreases hi - lo,
    {
        let mid = lo + (hi - lo) / 2;
        assert(mid * mid <= 0x1000_0000_0000_0000_0000_0000_0000) by (nonlinear_arith)
            requires mid <= 0x40_0000_0000_0000;
        if mid * mid <= n {
            lo = mid;
        } else {
            hi = mid;
        }
    }
    proof {
        assert(is_sqrt(n as int, lo as int));
        lemma_sqrt_unique(n as int, lo as int, sqrt_floor(n as int));
    }
    lo
}

/// The seed `d_sep` to the left of `p`, square to the step from `p` to `q`
/// (straight up where the step is empty).
pub open spec fn left_seed(p: Point, q: Point, d_sep: int) -> Point {
    let (tx, ty) = (q.x - p.x, q.y - p.y);
    if tx == 0 && ty == 0 {
        Point { x: p.x, y: (p.y + d_sep) as i64 }
    } else {
        let len = sqrt_floor(dist_sq(q, p));
        Point {
            x: (p.x + floor_div(-d_sep * ty, len)) as i64,
            y: (p.y + floor_div(d_sep * tx, len)) as i64,
        }
    }
}

/// The seed `d_sep` to the right of `p`, square to the step from `p` to `q`
/// (straight down where the step is empty).
pub open spec fn right_seed(p: Point, q: Point, d_sep: int) -> Point {
    let (tx, ty) = (q.x - p.x, q.y - p.y);
    if tx == 0 && ty == 0 {
        Point { x: p.x, y: (p.y - d_sep) as i64 }
    } else {
        let len = sqrt_floor(dist_sq(q, p));
        Point {
            x: (p.x + floor_div(d_sep * ty, len)) as i64,
            y: (p.y + floor_div(-d_sep * tx, len)) as i64,
        }
    }
}

/// The seeds of a curve: for each sample but the last, its left then its right seed.
pub open spec fn seeds_of(pts: Seq<Point>, d_sep: int) -> Seq<Point> {
    Seq::new(
        (if pts.len() == 0 { 0 } else { 2 * (pts.len() - 1) }) as nat,
        |k: int|
            if k % 2 == 0 {
                left_seed(pts[k / 2], pts[k / 2 + 1], d_sep)
            } else {
                right_seed(pts[k / 2], pts[k / 2 + 1], d_sep)
            },
    )
}

proof fn lemma_abs_below(a: int, b: int)
    requires
        b > 0,
        a * a < b * b,
    ensures
        -b < a < b,
{
    if a >= b {
        assert(a * a >= b * b) by (nonlinear_arith)
            requires a >= b, b > 0;
    }
    if a <= -b {
        assert(a * a >= b * b) by (nonlinear_arith)
            requires a <= -b, b > 0;
    }
}

/// `floor(n / len)` stays within `[-d, d]` when `|n| <= d * len`.
proof fn lemma_offset_bound(n: int, d: int, len: int)
    requires
        len > 0,
        d >= 0,
        -(d * len) <= n <= d * len,
    ensures
        -d <= n / len <= d,
{
    crate::geometry::lemma_cell_bounds(n, len);
    assert(-d <= n / len <= d) by (nonlinear_arith)
        requires len > 0, d >= 0, -(d * len) <= n <= d * len, len * (n / len) <= n < len * (n / len) + len;
}

/// The left and right seeds of `p` for the step to `q`.
pub fn seed_pair(p: Point, q: Point, d_sep: i64) -> (r: (Point, Point))
    requires
        point_ok(p),
        point_ok(q),
        0 < d_sep <= MAX_COORD,
    ensures
        r.0 == left_seed(p, q, d_sep as int),
        r.1 == right_seed(p, q, d_sep as int),
{
    let tx: i128 = q.x as i128 - p.x as i128;
    let ty: i128 = q.y as i128 - p.y as i128;
    if tx == 0 && ty == 0 {
        return (Point { x: p.x, y: p.y + d_sep }, Point { x: p.x, y: p.y - d_sep });
    }
    let n2 = distance_sq(q, p);
    assert(n2 > 0) by (nonlinear_arith)
        requires n2 == tx * tx + ty * ty, tx != 0 || ty != 0;
    let len = isqrt(n2);
    let ghost d = d_sep as int;
    proof {
        assert(len >= 1) by (nonlinear_arith)
            requires is_sqrt(n2 as int, len as int), n2 > 0;
        let l1 = len + 1;
        assert(tx * tx < l1 * l1 && ty * ty < l1 * l1) by (nonlinear_arith)
            requires n2 < l1 * l1, n2 == tx * tx + ty * ty;
        assert(len * len < 0x40_0000_0000_0001 * 0x40_0000_0000_0001) by (nonlinear_arith)
            requires len * len <= n2, n2 <= 8 * MAX_COORD * MAX_COORD, MAX_COORD == 0x10_0000_0000_0000;
        lemma_abs_below(len as int, 0x40_0000_0000_0001);
        lemma_abs_below(tx as int, l1);
        lemma_abs_below(ty as int, l1);
        assert(-(d * len) <= d * ty <= d * len && -(d * len) <= d * tx <= d * len) by (nonlinear_arith)
            requires -len <= tx <= len, -len <= ty <= len, d > 0;
        assert(-0x10_0000_0000_0000 * 0x40_0000_0000_0000 <= d * tx <= 0x10_0000_0000_0000 * 0x40_0000_0000_0000)
            by (nonlinear_arith)
            requires 0 < d <= 0x10_0000_0000_0000, -0x40_0000_0000_0000 <= tx <= 0x40_0000_0000_0000;
        assert(-0x10_0000_0000_0000 * 0x40_0000_0000_0000 <= d * ty <= 0x10_0000_0000_0000 * 0x40_0000_0000_0000)
            by (nonlinear_arith)
            requires 0 < d <= 0x10_0000_0000_0000, -0x40_0000_0000_0000 <= ty <= 0x40_0000_0000_0000;
        assert(-d * ty == -(d * ty) && -d * tx == -(d * tx)) by (nonlinear_arith);
        lemma_offset_bound(-d * ty, d, len as int);
        lemma_offset_bound(d * ty, d, len as int);
        lemma_offset_bound(-d * tx, d, len as int);
        lemma_offset_bound(d * tx, d, len as int);
    }
    let ds = d_sep as i128;
    let l = len as i128;
    let lx = div_floor(-ds * ty, l);
    let ly = div_floor(ds * tx, l);
    let rx = div_floor(ds * ty, l);
    let ry = div_floor(-ds * tx, l);
    let left = Point { x: (p.x as i128 + lx) as i64, y: (p.y as i128 + ly) as i64 };
    let right = Point { x: (p.x as i128 + rx) as i64, y: (p.y as i128 + ry) as i64 };
    (left, right)
}

/// The candidate seeds of a curve: for each sample but the last, the points
/// `d_sep` to its left and to its right, square to the step to the next sample.
pub fn collect_seedpoints(curve: &Curve, d_sep: i64) -> (queue: SeedPointsQueue)
    requires
        curve.wf(),
        0 < d_sep <= MAX_COORD,
        forall|i: int| 0 <= i < curve.samples().len() ==> point_ok(#[trigger] curve.samples()[i]),
    ensures
        queue.seeds() == seeds_of(curve.samples(), d_sep as int),
        queue.spec_capacity() == 2 * curve.samples().len(),
{
    let steps_taken = curve.steps_taken();
    let mut queue = SeedPointsQueue::new(steps_taken);
    if steps_taken == 0 {
        assert(queue.seeds() =~= seeds_of(curve.samples(), d_sep as int));
        return queue;
    }
    let ghost pts = curve.samples();
    let mut i: u32 = 0;
    while i < steps_taken - 1
        invariant
            curve.wf(),
            pts == curve.samples(),
            steps_taken == pts.len(),
            steps_taken > 0,
            0 < d_sep <= MAX_COORD,
            forall|k: int| 0 <= k < pts.len() ==> point_ok(#[trigger] pts[k]),
            0 <= i <= steps_taken - 1,
            queue.spec_capacity() == 2 * steps_taken,
            queue.seeds() =~= seeds_of(pts.take(i + 1), d_sep as int),
        decreases steps_taken - 1 - i,
    {
        let p = curve.point(i as usize);
        let q = curve.point(i as usize + 1);
        let pair = seed_pair(p, q, d_sep);
        queue.insert_point(pair.0);
        queue.insert_point(pair.1);
        i = i + 1;
        proof {
            let s = seeds_of(pts.take(i + 1), d_sep as int);
            assert forall|k: int| 0 <= k < s.len() implies s[k] == queue.seeds()[k] by {
                assert(pts.take(i + 1)[k / 2] == pts[k / 2]);
                assert(pts.take(i + 1)[k / 2 + 1] == pts[k / 2 + 1]);
                if k < 2 * (i - 1) {
                    assert(pts.take(i as int)[k / 2] == pts[k / 2]);
                    assert(pts.take(i as int)[k / 2 + 1] == pts[k / 2 + 1]);
                }
            }
        }
    }
    assert(pts.take(steps_taken as int) =~= pts);
    queue
}

} // verus!
