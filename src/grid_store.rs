use array2d::Array2D;
use crate::geometry::Point;
use vstd::prelude::*;

verus! {

#[verifier::external_type_specification]
#[verifier::external_body]
#[verifier::reject_recursive_types(T)]
pub struct ExArray2D<T>(array2d::Array2D<T>);

#[verifier::external_type_specification]
#[verifier::external_body]
pub struct ExArray2DError(array2d::Error);

/// The directions an `Array2D` of points holds, row by row.
pub uninterp spec fn direction_rows(a: Array2D<Point>) -> Seq<Seq<Point>>;

/// The point lists an `Array2D` of cells holds, row by row.
pub uninterp spec fn cell_rows(a: Array2D<Vec<Point>>) -> Seq<Seq<Seq<Point>>>;

/// `rows` has `n_rows` rows of `n_cols` entries each.
pub open spec fn has_shape<T>(rows: Seq<Seq<T>>, n_rows: int, n_cols: int) -> bool {
    &&& rows.len() == n_rows
    &&& forall|r: int| 0 <= r < n_rows ==> (#[trigger] rows[r]).len() == n_cols
}

/// Relies on `Array2D::from_row_major`: `Ok` exactly when the slice holds
/// `num_rows * num_columns` elements, which then become the rows in order.
#[verifier::external_body]
pub(crate) fn directions_from_row_major(elements: &Vec<Point>, num_rows: usize, num_columns: usize)
    -> (r: Result<Array2D<Point>, array2d::Error>)
    requires
        num_rows * num_columns <= usize::MAX,
    ensures
        r is Ok <==> elements@.len() == num_rows * num_columns,
        r matches Ok(a) ==> {
            &&& has_shape(direction_rows(a), num_rows as int, num_columns as int)
            &&& forall|i: int, j: int|
                0 <= i < num_rows && 0 <= j < num_columns ==> #[trigger] direction_rows(a)[i][j]
                    == elements@[i * num_columns + j]
        },
{
    Array2D::from_row_major(elements, num_rows, num_columns)
}

/// Relies on `Index<(usize, usize)>` of `Array2D`: the element at `(row, column)`.
#[verifier::external_body]
pub(crate) fn direction_at(a: &Array2D<Point>, row: usize, column: usize) -> (p: Point)
    requires
        row < direction_rows(*a).len(),
        column < direction_rows(*a)[row as int].len(),
    ensures
        p == direction_rows(*a)[row as int][column as int],
{
    a[(row, column)]
}

/// Relies on `Array2D::filled_with`: every location holds a clone of the element.
#[verifier::external_body]
pub(crate) fn cells_filled_with(element: Vec<Point>, num_rows: usize, num_columns: usize)
    -> (a: Array2D<Vec<Point>>)
    requires
        num_rows * num_columns <= usize::MAX,
    ensures
        has_shape(cell_rows(a), num_rows as int, num_columns as int),
        forall|i: int, j: int|
            0 <= i < num_rows && 0 <= j < num_columns ==> #[trigger] cell_rows(a)[i][j]
                == element@,
{
    Array2D::filled_with(element, num_rows, num_columns)
}

/// Relies on `Index<(usize, usize)>` of `Array2D`: the element at `(row, column)`.
#[verifier::external_body]
pub(crate) fn cell_at(a: &Array2D<Vec<Point>>, row: usize, column: usize) -> (v: &Vec<Point>)
    requires
        row < cell_rows(*a).len(),
        column < cell_rows(*a)[row as int].len(),
    ensures
        v@ == cell_rows(*a)[row as int][column as int],
{
    &a[(row, column)]
}

/// Relies on `IndexMut<(usize, usize)>` of `Array2D`: a borrow of the element
/// at `(row, column)`, the others left as they are.
#[verifier::external_body]
pub(crate) fn cell_at_mut(a: &mut Array2D<Vec<Point>>, row: usize, column: usize) -> (v: &mut Vec<Point>)
    requires
        row < cell_rows(*old(a)).len(),
        column < cell_rows(*old(a))[row as int].len(),
    ensures
        v@ == cell_rows(*old(a))[row as int][column as int],
        cell_rows(*final(a)) == cell_rows(*old(a)).update(
            row as int,
            cell_rows(*old(a))[row as int].update(column as int, final(v)@),
        ),
{
    &mut a[(row, column)]
}

} // verus!
