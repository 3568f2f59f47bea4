use array2d::Array2D;
use crate::geometry::{
    ConfigError, Point, MAX_COORD, too_close, is_too_close, point_ok, lemma_far_cells, dist_sq,
};
use crate::curve::Curve;
use crate::grid_store::{cell_rows, has_shape, cells_filled_with, cell_at, cell_at_mut};
use vstd::prelude::*;

verus! {

/// What became of a point handed to `DensityGrid::insert_coord`.
#[derive(Clone, Copy, Debug, PartialEq, Eq, Structural)]
pub enum InsertOutcome {
    /// The point was stored in its cell.
    Inserted,
    /// The point lies outside the grid; nothing changed.
    OffBoundaries,
    /// The point's cell was full; the point was dropped and counted.
    CellFull,
}

/// The number of cells of side `d_sep` that cover `extent` field ticks: `ceil(extent / d_sep)`.
pub fn calc_density_dim(extent: i64, d_sep: i64) -> (n: i64)
    requires
        0 <= extent <= MAX_COORD,
        0 < d_sep <= MAX_COORD,
    ensures
        n as int == (extent + d_sep - 1) / (d_sep as int),
        (n - 1) * d_sep < extent <= n * d_sep || (extent == 0 && n == 0),
{
    let n = (extent + d_sep - 1) / d_sep;
    proof {
        crate::geometry::lemma_cell_bounds(extent + d_sep - 1, d_sep as int);
        assert((n - 1) * d_sep < extent <= n * d_sep || (extent == 0 && n == 0)) by (nonlinear_arith)
            requires
                d_sep > 0,
                extent >= 0,
                d_sep * n <= extent + d_sep - 1 < d_sep * n + d_sep,
        ;
    }
    n
}

/// An empty cell, with room reserved for `cell_capacity` points.
pub fn empty_cell(cell_capacity: u32) -> (c: Vec<Point>)
    ensures
        c@ == Seq::<Point>::empty(),
{
    Vec::with_capacity(cell_capacity as usize)
}

/// Buckets of placed points, in square cells of side `d_sep`.
pub struct DensityGrid {
    grid: Array2D<Vec<Point>>,
    width: u32,
    height: u32,
    d_sep: i64,
    capacity: u32,
    dropped: u64,
}

impl DensityGrid {
    pub closed spec fn spec_width(&self) -> int {
        self.width as int
    }

    pub closed spec fn spec_height(&self) -> int {
        self.height as int
    }

    pub closed spec fn spec_d_sep(&self) -> int {
        self.d_sep as int
    }

    pub closed spec fn spec_capacity(&self) -> int {
        self.capacity as int
    }

    /// How many points were dropped because their cell was full (saturating).
    pub closed spec fn spec_dropped(&self) -> nat {
        self.dropped as nat
    }

    /// The points held by the cell in column `col` and row `row`.
    pub closed spec fn cell(&self, col: int, row: int) -> Seq<Point> {
        cell_rows(self.grid)[row][col]
    }

    pub open spec fn in_grid(&self, col: int, row: int) -> bool {
        0 <= col < self.spec_width() && 0 <= row < self.spec_height()
    }

    /// The grid holds `q` in some cell.
    pub open spec fn holds(&self, q: Point) -> bool {
        exists|c: int, r: int, i: int|
            self.in_grid(c, r) && 0 <= i < self.cell(c, r).len() && #[trigger] self.cell(c, r)[i] == q
    }

    /// The grid's dimensions, separation and capacity agree with `other`'s.
    pub open spec fn same_frame(&self, other: &DensityGrid) -> bool {
        &&& self.spec_width() == other.spec_width()
        &&& self.spec_height() == other.spec_height()
        &&& self.spec_d_sep() == other.spec_d_sep()
        &&& self.spec_capacity() == other.spec_capacity()
    }

    pub closed spec fn wf(&self) -> bool {
        &&& self.width > 0
        &&& self.height > 0
        &&& 0 < self.d_sep <= MAX_COORD
        &&& self.width * self.d_sep <= MAX_COORD
        &&& self.height * self.d_sep <= MAX_COORD
        &&& has_shape(cell_rows(self.grid), self.height as int, self.width as int)
        &&& forall|c: int, r: int|
            self.in_grid(c, r) ==> (#[trigger] self.cell(c, r)).len() <= self.capacity
        &&& forall|c: int, r: int, i: int|
            self.in_grid(c, r) && 0 <= i < self.cell(c, r).len() ==> self.stored_ok(
                #[trigger] self.cell(c, r)[i],
                c,
                r,
            )
    }

    /// A stored point lies inside the grid, in the cell it is filed under.
    pub open spec fn stored_ok(&self, q: Point, col: int, row: int) -> bool {
        &&& !self.off_boundaries_spec(q.x as int, q.y as int)
        &&& (q.x as int) / self.spec_d_sep() == col
        &&& (q.y as int) / self.spec_d_sep() == row
    }

    /// The point lies outside the grid: a coordinate not positive, or a cell past the last one.
    pub open spec fn off_boundaries_spec(&self, x: int, y: int) -> bool {
        x <= 0 || y <= 0 || x / self.spec_d_sep() >= self.spec_width() || y / self.spec_d_sep()
            >= self.spec_height()
    }

    /// No held point lies within `0.99 * d_sep` of `p`.
    pub open spec fn clear_of(&self, p: Point) -> bool {
        forall|c: int, r: int, i: int|
            self.in_grid(c, r) && 0 <= i < self.cell(c, r).len() ==> !too_close(
                p,
                #[trigger] self.cell(c, r)[i],
                self.spec_d_sep(),
            )
    }

    /// `p` may be placed: it lies inside the grid and clear of every held point.
    pub open spec fn valid_spec(&self, p: Point) -> bool {
        !self.off_boundaries_spec(p.x as int, p.y as int) && self.clear_of(p)
    }

    /// An empty `width` by `height` grid of cells of side `d_sep`, each holding up
    /// to `cell_capacity` points.
    pub fn new(d_sep: i64, width: u32, height: u32, cell_capacity: u32) -> (r: Result<DensityGrid, ConfigError>)
        ensures
            (width == 0 || height == 0) ==> r == Err::<DensityGrid, _>(ConfigError::ZeroSizedField),
            (width > 0 && height > 0 && !(0 < d_sep <= MAX_COORD)) ==> r == Err::<DensityGrid, _>(
                ConfigError::BadSeparation),
            (width > 0 && height > 0 && 0 < d_sep <= MAX_COORD && (width * d_sep > MAX_COORD || height
                * d_sep > MAX_COORD || height * width > usize::MAX)) ==> r == Err::<DensityGrid, _>(
                ConfigError::TooLarge),
            r is Ok <==> (width > 0 && height > 0 && 0 < d_sep <= MAX_COORD && width * d_sep <= MAX_COORD
                && height * d_sep <= MAX_COORD && height * width <= usize::MAX),
            r matches Ok(g) ==> {
                &&& g.wf()
                &&& g.spec_width() == width
                &&& g.spec_height() == height
                &&& g.spec_d_sep() == d_sep
                &&& g.spec_capacity() == cell_capacity
                &&& g.spec_dropped() == 0
                &&& forall|c: int, r: int| g.in_grid(c, r) ==> #[trigger] g.cell(c, r).len() == 0
            },
    {
        if width == 0 || height == 0 {
            return Err(ConfigError::ZeroSizedField);
        }
        if d_sep <= 0 || d_sep > MAX_COORD {
            return Err(ConfigError::BadSeparation);
        }
        let w: i128 = width as i128;
        let h: i128 = height as i128;
        proof {
            assert(w * d_sep <= 0x1_0000_0000 * MAX_COORD && h * d_sep <= 0x1_0000_0000 * MAX_COORD)
                by (nonlinear_arith)
                requires 0 < w <= 0x1_0000_0000, 0 < h <= 0x1_0000_0000, 0 < d_sep <= MAX_COORD;
        }
        if w * (d_sep as i128) > MAX_COORD as i128 || h * (d_sep as i128) > MAX_COORD as i128 {
            return Err(ConfigError::TooLarge);
        }
        if (height as usize).checked_mul(width as usize).is_none() {
            return Err(ConfigError::TooLarge);
        }
        let grid = cells_filled_with(empty_cell(cell_capacity), height as usize, width as usize);
        Ok(DensityGrid { grid, width, height, d_sep, capacity: cell_capacity, dropped: 0 })
    }

    /// The column of the cell that holds abscissa `x`.
    pub fn get_density_col(&self, x: i64) -> (c: u64)
        requires
            self.wf(),
            0 <= x,
        ensures
            c as int == (x as int) / self.spec_d_sep(),
    {
        (x / self.d_sep) as u64
    }

    /// The row of the cell that holds ordinate `y`.
    pub fn get_density_row(&self, y: i64) -> (r: u64)
        requires
            self.wf(),
            0 <= y,
        ensures
            r as int == (y as int) / self.spec_d_sep(),
    {
        (y / self.d_sep) as u64
    }

    /// Whether `(x, y)` lies outside the grid.
    pub fn off_boundaries(&self, x: i64, y: i64) -> (r: bool)
        requires
            self.wf(),
        ensures
            r == self.off_boundaries_spec(x as int, y as int),
    {
        if x <= 0 || y <= 0 {
            return true;
        }
        let c = self.get_density_col(x);
        let r = self.get_density_row(y);
        c >= self.width as u64 || r >= self.height as u64
    }

    /// Stores `(x, y)` in its cell if it lies inside the grid and the cell has room;
    /// a point that finds its cell full is dropped and counted.
    pub fn insert_coord(&mut self, x: i64, y: i64) -> (outcome: InsertOutcome)
        requires
            old(self).wf(),
        ensures
            final(self).wf(),
            final(self).same_frame(old(self)),
            old(self).off_boundaries_spec(x as int, y as int) ==> outcome == InsertOutcome::OffBoundaries,
            outcome == InsertOutcome::OffBoundaries ==> old(self).off_boundaries_spec(x as int, y as int),
            ({
                let c = (x as int) / old(self).spec_d_sep();
                let r = (y as int) / old(self).spec_d_sep();
                &&& outcome == InsertOutcome::Inserted <==> (!old(self).off_boundaries_spec(x as int, y as int)
                    && old(self).cell(c, r).len() < old(self).spec_capacity())
                &&& outcome == InsertOutcome::Inserted ==> forall|c2: int, r2: int| #[trigger]
                    old(self).in_grid(c2, r2) ==> final(self).cell(c2, r2) == if c2 == c && r2 == r {
                        old(self).cell(c, r).push(Point { x, y })
                    } else {
                        old(self).cell(c2, r2)
                    }
            }),
            outcome != InsertOutcome::Inserted ==> forall|c2: int, r2: int| #[trigger]
                old(self).in_grid(c2, r2) ==> final(self).cell(c2, r2) == old(self).cell(c2, r2),
            outcome == InsertOutcome::CellFull ==> final(self).spec_dropped() == if old(self).spec_dropped()
                < u64::MAX {
                old(self).spec_dropped() + 1
            } else {
                old(self).spec_dropped()
            },
            outcome != InsertOutcome::CellFull ==> final(self).spec_dropped() == old(self).spec_dropped(),
            outcome == InsertOutcome::Inserted ==> final(self).holds(Point { x, y }),
            forall|q: Point| old(self).holds(q) ==> #[trigger] final(self).holds(q),
    {
        if self.off_boundaries(x, y) {
            return InsertOutcome::OffBoundaries;
        }
        let col = self.get_density_col(x) as usize;
        let row = self.get_density_row(y) as usize;
        proof {
            self.lemma_inside(x as int, y as int);
        }
        let used = cell_at(&self.grid, row, col).len();
        if used < self.capacity as usize {
            let ghost old_self = *self;
            let cell = cell_at_mut(&mut self.grid, row, col);
            cell.push(Point { x, y });
            proof {
                let p = Point { x, y };
                assert(self.cell(col as int, row as int)[used as int] == p);
                assert(has_shape(cell_rows(self.grid), self.height as int, self.width as int)) by {
                    assert forall|r: int| 0 <= r < self.height implies (#[trigger] cell_rows(self.grid)[r]).len()
                        == self.width by {
                        assert(cell_rows(old_self.grid)[r].len() == self.width);
                    }
                }
                assert forall|c2: int, r2: int| #[trigger] old_self.in_grid(c2, r2) implies self.cell(c2, r2)
                    == if c2 == col && r2 == row {
                    old_self.cell(col as int, row as int).push(p)
                } else {
                    old_self.cell(c2, r2)
                } by {
                    if c2 == col && r2 == row {
                        assert(self.cell(c2, r2) =~= old_self.cell(col as int, row as int).push(p));
                    }
                }
                assert forall|c: int, r: int| self.in_grid(c, r) implies (#[trigger] self.cell(c, r)).len()
                    <= self.capacity by {
                    assert(old_self.in_grid(c, r));
                    assert(self.cell(c, r) == if c == col && r == row {
                        old_self.cell(col as int, row as int).push(p)
                    } else {
                        old_self.cell(c, r)
                    });
                }
                assert forall|q: Point| old_self.holds(q) implies #[trigger] self.holds(q) by {
                    let (c, r, i) = choose|c: int, r: int, i: int|
                        old_self.in_grid(c, r) && 0 <= i < old_self.cell(c, r).len() && #[trigger] old_self.cell(
                            c,
                            r,
                        )[i] == q;
                    assert(old_self.in_grid(c, r));
                    assert(self.cell(c, r)[i] == q);
                    assert(self.in_grid(c, r) && 0 <= i < self.cell(c, r).len());
                }
                assert forall|c: int, r: int, i: int|
                    self.in_grid(c, r) && 0 <= i < self.cell(c, r).len() implies self.stored_ok(
                    #[trigger] self.cell(c, r)[i],
                    c,
                    r,
                ) by {
                    assert(old_self.in_grid(c, r));
                    if c == col && r == row && i == used {
                    } else {
                        assert(old_self.cell(c, r)[i] == self.cell(c, r)[i]);
                        assert(old_self.stored_ok(old_self.cell(c, r)[i], c, r));
                    }
                }
                assert(self.wf());
            }
            InsertOutcome::Inserted
        } else {
            let ghost old_self = *self;
            if self.dropped < u64::MAX {
                self.dropped = self.dropped + 1;
            }
            proof {
                DensityGrid::lemma_same_cells(old_self, *self);
            }
            InsertOutcome::CellFull
        }
    }

    /// Whether a curve may step onto `(x, y)`: inside the grid, and no held point
    /// within `0.99 * d_sep`. Only the 3 by 3 block of cells round the point is
    /// scanned; cells farther off are at least `d_sep` away.
    pub fn is_valid_next_step(&self, x: i64, y: i64) -> (r: bool)
        requires
            self.wf(),
        ensures
            r == self.valid_spec(Point { x, y }),
    {
        if self.off_boundaries(x, y) {
            return false;
        }
        let p = Point { x, y };
        let col = self.get_density_col(x);
        let row = self.get_density_row(y);
        let start_col: u64 = if col >= 1 { col - 1 } else { 0 };
        let end_col: u64 = if col + 1 < self.width as u64 { col + 1 } else { col };
        let start_row: u64 = if row >= 1 { row - 1 } else { 0 };
        let end_row: u64 = if row + 1 < self.height as u64 { row + 1 } else { row };
        proof {
            self.lemma_inside(x as int, y as int);
        }
        let mut c: u64 = start_col;
        while c <= end_col
            invariant
                self.wf(),
                point_ok(p),
                p == (Point { x, y }),
                start_col <= c <= end_col + 1,
                start_row <= end_row,
                end_col < self.width,
                end_row < self.height,
                forall|c2: int, r2: int, i: int|
                    start_col <= c2 < c && start_row <= r2 <= end_row && 0 <= i < self.cell(c2, r2).len()
                        ==> !too_close(p, #[trigger] self.cell(c2, r2)[i], self.spec_d_sep()),
            decreases end_col + 1 - c,
        {
            let mut r: u64 = start_row;
            while r <= end_row
                invariant
                    self.wf(),
                    point_ok(p),
                    p == (Point { x, y }),
                    start_col <= c <= end_col,
                    start_row <= r <= end_row + 1,
                    end_col < self.width,
                    end_row < self.height,
                    forall|c2: int, r2: int, i: int|
                        ((start_col <= c2 < c && start_row <= r2 <= end_row) || (c2 == c && start_row <= r2
                            < r)) && 0 <= i < self.cell(c2, r2).len() ==> !too_close(
                            p,
                            #[trigger] self.cell(c2, r2)[i],
                            self.spec_d_sep(),
                        ),
                decreases end_row + 1 - r,
            {
                let points = cell_at(&self.grid, r as usize, c as usize);
                let mut i: usize = 0;
                while i < points.len()
                    invariant
                        self.wf(),
                        point_ok(p),
                        p == (Point { x, y }),
                        start_col <= c <= end_col,
                        start_row <= r <= end_row,
                        end_col < self.width,
                        end_row < self.height,
                        points@ == self.cell(c as int, r as int),
                        0 <= i <= points@.len(),
                        forall|c2: int, r2: int, k: int|
                            ((start_col <= c2 < c && start_row <= r2 <= end_row) || (c2 == c && start_row
                                <= r2 < r) || (c2 == c && r2 == r && k < i)) && 0 <= k < self.cell(
                                c2,
                                r2,
                            ).len() ==> !too_close(p, #[trigger] self.cell(c2, r2)[k], self.spec_d_sep()),
                    decreases points@.len() - i,
                {
                    let q = points[i];
                    proof {
                        assert(self.in_grid(c as int, r as int));
                        assert(self.stored_ok(self.cell(c as int, r as int)[i as int], c as int, r as int));
                        self.lemma_inside(q.x as int, q.y as int);
                    }
                    if is_too_close(p, q, self.d_sep) {
                        proof {
                            let cq = self.cell(c as int, r as int)[i as int];
                            assert(self.in_grid(c as int, r as int) && 0 <= i < self.cell(c as int, r as int).len()
                                && too_close(p, cq, self.spec_d_sep()));
                            assert(!self.clear_of(p));
                            assert(p == Point { x, y });
                            assert(!self.valid_spec(p));
                        }
                        return false;
                    }
                    i = i + 1;
                }
                r = r + 1;
            }
            c = c + 1;
        }
        proof {
            assert forall|c2: int, r2: int, i: int|
                self.in_grid(c2, r2) && 0 <= i < self.cell(c2, r2).len() implies !too_close(
                p,
                #[trigger] self.cell(c2, r2)[i],
                self.spec_d_sep(),
            ) by {
                let q = self.cell(c2, r2)[i];
                assert(self.stored_ok(q, c2, r2));
                if !(start_col <= c2 <= end_col && start_row <= r2 <= end_row) {
                    lemma_far_cells(p, q, self.spec_d_sep());
                }
            }
        }
        true
    }

    /// Two grids with the same frame and the same cells are alike well formed
    /// and hold the same points.
    proof fn lemma_same_cells(a: DensityGrid, b: DensityGrid)
        requires
            a.wf(),
            a.grid == b.grid,
            a.width == b.width,
            a.height == b.height,
            a.d_sep == b.d_sep,
            a.capacity == b.capacity,
        ensures
            b.wf(),
            forall|q: Point| a.holds(q) ==> #[trigger] b.holds(q),
    {
        assert forall|c: int, r: int| b.in_grid(c, r) implies (#[trigger] b.cell(c, r)).len() <= b.capacity by {
            assert(a.cell(c, r) == b.cell(c, r));
        }
        assert forall|c: int, r: int, i: int|
            b.in_grid(c, r) && 0 <= i < b.cell(c, r).len() implies b.stored_ok(#[trigger] b.cell(c, r)[i], c, r) by {
            assert(a.cell(c, r) == b.cell(c, r));
            assert(a.stored_ok(a.cell(c, r)[i], c, r));
        }
        assert forall|q: Point| a.holds(q) implies #[trigger] b.holds(q) by {
            let (c, r, i) = choose|c: int, r: int, i: int|
                a.in_grid(c, r) && 0 <= i < a.cell(c, r).len() && #[trigger] a.cell(c, r)[i] == q;
            assert(a.cell(c, r) == b.cell(c, r));
            assert(b.in_grid(c, r) && 0 <= i < b.cell(c, r).len() && b.cell(c, r)[i] == q);
        }
    }

    /// A point clear of the grid is not too close to any point it holds.
    pub proof fn lemma_clear_of_held(&self, p: Point, q: Point)
        requires
            self.clear_of(p),
            self.holds(q),
        ensures
            !too_close(p, q, self.spec_d_sep()),
    {
        let (c, r, i) = choose|c: int, r: int, i: int|
            self.in_grid(c, r) && 0 <= i < self.cell(c, r).len() && #[trigger] self.cell(c, r)[i] == q;
        assert(!too_close(p, self.cell(c, r)[i], self.spec_d_sep()));
    }

    /// A point inside the grid has coordinates in range, in a cell of the grid.
    pub proof fn lemma_inside(&self, x: int, y: int)
        requires
            self.wf(),
            !self.off_boundaries_spec(x, y),
        ensures
            0 < self.spec_d_sep() <= MAX_COORD,
            0 < x <= MAX_COORD,
            0 < y <= MAX_COORD,
            self.in_grid(x / self.spec_d_sep(), y / self.spec_d_sep()),
    {
        let d = self.spec_d_sep();
        crate::geometry::lemma_cell_bounds(x, d);
        crate::geometry::lemma_cell_bounds(y, d);
        let (w, h) = (self.spec_width(), self.spec_height());
        assert(x <= w * d) by (nonlinear_arith)
            requires d > 0, d * (x / d) <= x < d * (x / d) + d, x / d < w;
        assert(y <= h * d) by (nonlinear_arith)
            requires d > 0, d * (y / d) <= y < d * (y / d) + d, y / d < h;
        assert(0 <= x / d) by (nonlinear_arith)
            requires d > 0, x > 0;
        assert(0 <= y / d) by (nonlinear_arith)
            requires d > 0, y > 0;
    }

    /// Stores every sample of `curve`, as `insert_coord` does; returns how many
    /// samples found their cell full.
    pub fn insert_curve_coords(&mut self, curve: &Curve) -> (n_full: u32)
        requires
            old(self).wf(),
            curve.wf(),
        ensures
            final(self).wf(),
            final(self).same_frame(old(self)),
            old(self).spec_dropped() <= final(self).spec_dropped(),
            n_full == 0 ==> final(self).spec_dropped() == old(self).spec_dropped(),
            n_full <= curve.samples().len(),
            forall|q: Point| old(self).holds(q) ==> #[trigger] final(self).holds(q),
            final(self).spec_dropped() == 0 ==> forall|k: int|
                0 <= k < curve.samples().len() && !old(self).off_boundaries_spec(
                    curve.samples()[k].x as int,
                    curve.samples()[k].y as int,
                ) ==> final(self).holds(#[trigger] curve.samples()[k]),
    {
        let steps_taken = curve.steps_taken();
        let mut n_full: u32 = 0;
        let mut i: u32 = 0;
        while i < steps_taken
            invariant
                self.wf(),
                self.same_frame(old(self)),
                curve.wf(),
                steps_taken == curve.samples().len(),
                0 <= i <= steps_taken,
                n_full <= i,
                old(self).spec_dropped() <= self.spec_dropped(),
                n_full == 0 ==> self.spec_dropped() == old(self).spec_dropped(),
                forall|q: Point| old(self).holds(q) ==> #[trigger] self.holds(q),
                self.spec_dropped() == 0 ==> forall|k: int|
                    0 <= k < i && !old(self).off_boundaries_spec(
                        curve.samples()[k].x as int,
                        curve.samples()[k].y as int,
                    ) ==> self.holds(#[trigger] curve.samples()[k]),
            decreases steps_taken - i,
        {
            let p = curve.point(i as usize);
            let outcome = self.insert_coord(p.x, p.y);
            if outcome == InsertOutcome::CellFull {
                n_full = n_full + 1;
            }
            i = i + 1;
        }
        n_full
    }

    /// How many points were dropped because their cell was full.
    pub fn dropped(&self) -> (n: u64)
        ensures
            n == self.spec_dropped(),
    {
        self.dropped
    }

    pub fn d_sep(&self) -> (d: i64)
        ensures
            d == self.spec_d_sep(),
    {
        self.d_sep
    }
}

} // verus!

verus! {

impl DensityGrid {
    /// A grid whose only point is `p`, filed in its own cell.
    pub open spec fn holds_only(&self, p: Point) -> bool {
        let (pc, pr) = ((p.x as int) / self.spec_d_sep(), (p.y as int) / self.spec_d_sep());
        forall|c: int, r: int|
            self.in_grid(c, r) ==> #[trigger] self.cell(c, r) == if c == pc && r == pr {
                seq![p]
            } else {
                Seq::<Point>::empty()
            }
    }

    /// In a grid that holds the single point `p`, `p` itself is never a valid
    /// next step, and a point inside the grid farther than `d_sep` from `p` is.
    pub proof fn lemma_single_point(&self, p: Point, q: Point)
        requires
            self.wf(),
            !self.off_boundaries_spec(p.x as int, p.y as int),
            self.holds_only(p),
        ensures
            !self.valid_spec(p),
            !self.off_boundaries_spec(q.x as int, q.y as int) && dist_sq(p, q) > self.spec_d_sep()
                * self.spec_d_sep() ==> self.valid_spec(q),
    {
        let d = self.spec_d_sep();
        self.lemma_inside(p.x as int, p.y as int);
        let (pc, pr) = ((p.x as int) / d, (p.y as int) / d);
        assert(self.cell(pc, pr) == seq![p]);
        assert(self.cell(pc, pr)[0] == p);
        assert(dist_sq(p, p) == 0);
        assert(too_close(p, self.cell(pc, pr)[0], d));
        if !self.off_boundaries_spec(q.x as int, q.y as int) && dist_sq(p, q) > d * d {
            assert forall|c: int, r: int, i: int|
                self.in_grid(c, r) && 0 <= i < self.cell(c, r).len() implies !too_close(
                q,
                #[trigger] self.cell(c, r)[i],
                d,
            ) by {
                assert(self.cell(c, r) == if c == pc && r == pr {
                    seq![p]
                } else {
                    Seq::<Point>::empty()
                });
                crate::geometry::lemma_too_close_symmetric(q, p, d);
                assert(d * d >= 0) by (nonlinear_arith);
            }
        }
    }
}

} // verus!
