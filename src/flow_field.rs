use array2d::Array2D;
use crate::geometry::{ConfigError, Point, UNIT, MAX_COORD};
use crate::grid_store::{direction_rows, has_shape, directions_from_row_major, direction_at};
use vstd::prelude::*;

verus! {

/// A field extent in ticks stays within `MAX_COORD`.
pub proof fn lemma_extent(n: u32)
    ensures
        0 <= n * UNIT <= MAX_COORD,
{
    assert(0 <= n * UNIT <= MAX_COORD) by (nonlinear_arith)
        requires n <= u32::MAX, UNIT == 1_000_000, MAX_COORD == 4_503_599_627_370_496;
}

/// A unit direction, each component scaled by `UNIT`.
pub open spec fn unit_ok(d: Point) -> bool {
    -UNIT <= d.x <= UNIT && -UNIT <= d.y <= UNIT
}

/// A `width` by `height` grid of directions, one per unit cell.
pub struct FlowField {
    field: Array2D<Point>,
    height: u32,
    width: u32,
}

impl FlowField {
    pub closed spec fn spec_width(&self) -> int {
        self.width as int
    }

    pub closed spec fn spec_height(&self) -> int {
        self.height as int
    }

    /// The direction stored for the cell in column `col` and row `row`.
    pub closed spec fn cell(&self, col: int, row: int) -> Point {
        direction_rows(self.field)[row][col]
    }

    pub closed spec fn wf(&self) -> bool {
        &&& self.width > 0
        &&& self.height > 0
        &&& has_shape(direction_rows(self.field), self.height as int, self.width as int)
        &&& forall|c: int, r: int|
            0 <= c < self.width && 0 <= r < self.height ==> unit_ok(#[trigger] self.cell(c, r))
    }

    /// The point lies outside the open field `(0, width) x (0, height)`.
    pub open spec fn off_boundaries_spec(&self, x: int, y: int) -> bool {
        x <= 0 || y <= 0 || x >= self.spec_width() * UNIT || y >= self.spec_height() * UNIT
    }

    /// The direction read at a point inside the field: that of its cell.
    pub open spec fn direction(&self, x: int, y: int) -> Point {
        self.cell(x / (UNIT as int), y / (UNIT as int))
    }

    /// Builds a field from its directions, listed row by row (`directions[row * width + col]`).
    pub fn new(width: u32, height: u32, directions: &Vec<Point>) -> (r: Result<FlowField, ConfigError>)
        ensures
            (width == 0 || height == 0) ==> r == Err::<FlowField, _>(ConfigError::ZeroSizedField),
            (width > 0 && height > 0 && directions@.len() != width * height) ==> r == Err::<FlowField, _>(
                ConfigError::DirectionCount),
            (width > 0 && height > 0 && directions@.len() == width * height && exists|i: int|
                0 <= i < directions@.len() && !unit_ok(#[trigger] directions@[i])) ==> r == Err::<FlowField, _>(
                ConfigError::DirectionOutOfRange),
            r is Ok <==> (width > 0 && height > 0 && directions@.len() == width * height && forall|i: int|
                0 <= i < directions@.len() ==> unit_ok(#[trigger] directions@[i])),
            r matches Ok(f) ==> {
                &&& f.wf()
                &&& f.spec_width() == width
                &&& f.spec_height() == height
                &&& forall|c: int, r: int|
                    0 <= c < width && 0 <= r < height ==> #[trigger] f.cell(c, r) == directions@[r * width + c]
            },
    {
        if width == 0 || height == 0 {
            return Err(ConfigError::ZeroSizedField);
        }
        let w = width as usize;
        let h = height as usize;
        assert((width as u64) * (height as u64) <= u64::MAX) by (nonlinear_arith)
            requires width <= u32::MAX, height <= u32::MAX;
        if directions.len() as u64 != (width as u64) * (height as u64) {
            return Err(ConfigError::DirectionCount);
        }
        let mut i: usize = 0;
        while i < directions.len()
            invariant
                0 <= i <= directions@.len(),
                width > 0,
                height > 0,
                directions@.len() == width * height,
                forall|k: int| 0 <= k < i ==> unit_ok(#[trigger] directions@[k]),
            decreases directions@.len() - i,
        {
            let d = directions[i];
            if d.x < -UNIT || d.x > UNIT || d.y < -UNIT || d.y > UNIT {
                return Err(ConfigError::DirectionOutOfRange);
            }
            i = i + 1;
        }
        match directions_from_row_major(directions, h, w) {
            Ok(field) => {
                let f = FlowField { field, height, width };
                assert forall|c: int, r: int| 0 <= c < width && 0 <= r < height implies unit_ok(
                    #[trigger] f.cell(c, r)) && f.cell(c, r) == directions@[r * width + c] by {
                    assert(0 <= r * width + c < width * height) by (nonlinear_arith)
                        requires 0 <= c < width, 0 <= r < height;
                }
                Ok(f)
            },
            Err(_) => Err(ConfigError::DirectionCount),
        }
    }

    /// A point inside the field has coordinates in range.
    pub proof fn lemma_inside_extent(&self, x: int, y: int)
        requires
            self.wf(),
            !self.off_boundaries_spec(x, y),
        ensures
            0 < x < MAX_COORD,
            0 < y < MAX_COORD,
    {
        lemma_extent(self.width);
        lemma_extent(self.height);
    }

    /// The direction of the cell that holds `(x, y)`.
    pub fn get_angle(&self, x: i64, y: i64) -> (d: Point)
        requires
            self.wf(),
            !self.off_boundaries_spec(x as int, y as int),
        ensures
            d == self.direction(x as int, y as int),
            unit_ok(d),
    {
        let col = FlowField::get_flow_field_col(x);
        let row = FlowField::get_flow_field_row(y);
        proof {
            assert(x / UNIT < self.width) by (nonlinear_arith)
                requires 0 < x < self.width * UNIT, UNIT > 0;
            assert(y / UNIT < self.height) by (nonlinear_arith)
                requires 0 < y < self.height * UNIT, UNIT > 0;
            assert(unit_ok(self.cell(col as int, row as int)));
        }
        direction_at(&self.field, row as usize, col as usize)
    }

    /// The column of the cell that holds abscissa `x`.
    pub fn get_flow_field_col(x: i64) -> (c: u64)
        requires
            0 <= x <= MAX_COORD,
        ensures
            c as int == (x as int) / (UNIT as int),
    {
        proof {
            assert(x / UNIT <= MAX_COORD) by (nonlinear_arith)
                requires 0 <= x <= MAX_COORD, UNIT > 0;
        }
        (x / UNIT) as u64
    }

    /// The row of the cell that holds ordinate `y`.
    pub fn get_flow_field_row(y: i64) -> (r: u64)
        requires
            0 <= y <= MAX_COORD,
        ensures
            r as int == (y as int) / (UNIT as int),
    {
        proof {
            assert(y / UNIT <= MAX_COORD) by (nonlinear_arith)
                requires 0 <= y <= MAX_COORD, UNIT > 0;
        }
        (y / UNIT) as u64
    }

    /// Whether `(x, y)` lies outside the open field.
    pub fn off_boundaries(&self, x: i64, y: i64) -> (r: bool)
        ensures
            r == self.off_boundaries_spec(x as int, y as int),
    {
        proof {
            lemma_extent(self.width);
            lemma_extent(self.height);
        }
        x <= 0 || y <= 0 || x as i128 >= self.width as i128 * UNIT as i128 || y as i128 >= self.height as i128
            * UNIT as i128
    }

    pub fn width(&self) -> (r: u32)
        ensures
            r == self.spec_width(),
    {
        self.width
    }

    pub fn height(&self) -> (r: u32)
        ensures
            r == self.spec_height(),
    {
        self.height
    }
}

} // verus!
