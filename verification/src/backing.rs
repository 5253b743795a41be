//! Trusted declarations for the outside crates that back the grid: `array2d`
//! stores the cells as a fixed-size two-dimensional array, and `rand` draws
//! the values for randomly filled grids.
//!
//! `a2d_rows` and `a2d_width` name what an `array2d::Array2D<i32>` holds: its
//! rows, as a sequence of sequences of cell values, and its number of
//! columns. Every contract in this module speaks of the array through these
//! two names.

use vstd::prelude::*;
use rand::seq::SliceRandom;
use crate::grid::{rectangular, rows_view};

verus! {

#[verifier::external_type_specification]
#[verifier::external_body]
#[verifier::reject_recursive_types(T)]
pub struct ExArray2D<T>(array2d::Array2D<T>);

#[verifier::external_type_specification]
#[verifier::external_body]
pub struct ExArray2DError(array2d::Error);

/// The rows stored in an `array2d::Array2D<i32>`, row by row.
pub uninterp spec fn a2d_rows(a: array2d::Array2D<i32>) -> Seq<Seq<i32>>;

/// The number of columns an `array2d::Array2D<i32>` was built with (each of
/// its rows has this many elements; it can be nonzero even with no rows).
pub uninterp spec fn a2d_width(a: array2d::Array2D<i32>) -> nat;

/// Relies on array2d::Array2D::filled_with: builds a `num_rows` by
/// `num_columns` array with every element the given one. The product is
/// required to fit in usize because filled_with computes it to size its
/// backing vector.
#[verifier::external_body]
pub(crate) fn a2d_filled_with(element: i32, num_rows: usize, num_columns: usize) -> (r:
    array2d::Array2D<i32>)
    requires
        num_rows * num_columns <= usize::MAX,
    ensures
        a2d_rows(r).len() == num_rows,
        forall|i: int| 0 <= i < num_rows ==> #[trigger] a2d_rows(r)[i].len() == num_columns,
        forall|i: int, j: int|
            0 <= i < num_rows && 0 <= j < num_columns ==> #[trigger] a2d_rows(r)[i][j] == element,
        a2d_width(r) == num_columns,
{
    array2d::Array2D::filled_with(element, num_rows, num_columns)
}

/// Relies on array2d::Array2D::from_rows: succeeds exactly when every given
/// row has the length of the first one, and then stores the rows as given;
/// the number of columns is the common row length (zero for no rows).
#[verifier::external_body]
pub(crate) fn a2d_from_rows(elements: &Vec<Vec<i32>>) -> (r: Result<
    array2d::Array2D<i32>,
    array2d::Error,
>)
    ensures
        (r is Ok) <==> rectangular(rows_view(elements@)),
        r is Ok ==> a2d_rows(r->Ok_0) == rows_view(elements@),
        r is Ok ==> a2d_width(r->Ok_0) == (if elements@.len() == 0 {
            0nat
        } else {
            elements@[0]@.len()
        }),
        r is Ok ==> a2d_rows(r->Ok_0).len() * a2d_width(r->Ok_0) <= usize::MAX,
{
    array2d::Array2D::from_rows(elements)
}

/// Relies on array2d::Array2D::from_columns: succeeds exactly when every
/// given column has the length of the first one, and then stores the
/// transpose: row i holds the i-th element of each column in turn. The
/// number of rows is the common column length (zero for no columns).
#[verifier::external_body]
pub(crate) fn a2d_from_columns(elements: &Vec<Vec<i32>>) -> (r: Result<
    array2d::Array2D<i32>,
    array2d::Error,
>)
    ensures
        (r is Ok) <==> rectangular(rows_view(elements@)),
        r is Ok ==> a2d_rows(r->Ok_0).len() == (if elements@.len() == 0 {
            0int
        } else {
            elements@[0]@.len() as int
        }),
        r is Ok ==> a2d_width(r->Ok_0) == elements@.len(),
        r is Ok ==> forall|i: int|
            0 <= i < a2d_rows(r->Ok_0).len() ==> #[trigger] a2d_rows(r->Ok_0)[i].len()
                == elements@.len(),
        r is Ok ==> forall|i: int, j: int|
            0 <= i < a2d_rows(r->Ok_0).len() && 0 <= j < elements@.len()
                ==> #[trigger] a2d_rows(r->Ok_0)[i][j] == elements@[j]@[i],
        r is Ok ==> a2d_rows(r->Ok_0).len() * a2d_width(r->Ok_0) <= usize::MAX,
{
    array2d::Array2D::from_columns(elements)
}

/// Relies on array2d::Array2D::num_rows.
#[verifier::external_body]
pub(crate) fn a2d_num_rows(a: &array2d::Array2D<i32>) -> (r: usize)
    ensures
        r == a2d_rows(*a).len(),
{
    a.num_rows()
}

/// Relies on array2d::Array2D::num_columns.
#[verifier::external_body]
pub(crate) fn a2d_num_columns(a: &array2d::Array2D<i32>) -> (r: usize)
    ensures
        r == a2d_width(*a),
{
    a.num_columns()
}

/// Relies on array2d::Array2D::get: Some exactly when both indices are in
/// bounds, and then the element at that row and column.
#[verifier::external_body]
pub(crate) fn a2d_get(a: &array2d::Array2D<i32>, row: usize, column: usize) -> (r: Option<i32>)
    ensures
        (r is Some) <==> (row < a2d_rows(*a).len() && column < a2d_width(*a)),
        r is Some ==> r->0 == a2d_rows(*a)[row as int][column as int],
{
    a.get(row, column).copied()
}

/// Relies on array2d::Array2D::get_mut: Some exactly when both indices are
/// in bounds, and then a mutable reference to that element; whatever the
/// caller writes through it, only that element changes.
#[verifier::external_body]
pub(crate) fn a2d_get_mut<'a>(a: &'a mut array2d::Array2D<i32>, row: usize, column: usize) -> (r:
    Option<&'a mut i32>)
    ensures
        (r is Some) <==> (row < a2d_rows(*old(a)).len() && column < a2d_width(*old(a))),
        r is None ==> *final(a) == *old(a),
        r is Some ==> *r->0 == a2d_rows(*old(a))[row as int][column as int],
        r is Some ==> a2d_rows(*final(a)) == a2d_rows(*old(a)).update(
            row as int,
            a2d_rows(*old(a))[row as int].update(column as int, *final(r->0)),
        ),
        r is Some ==> a2d_width(*final(a)) == a2d_width(*old(a)),
{
    a.get_mut(row, column)
}

/// Relies on array2d::Array2D::set: writes the element at the given row and
/// column and returns Ok exactly when both indices are in bounds; out of
/// bounds, the array is unchanged and an error comes back.
#[verifier::external_body]
pub(crate) fn a2d_set(
    a: &mut array2d::Array2D<i32>,
    row: usize,
    column: usize,
    element: i32,
) -> (r: Result<(), array2d::Error>)
    ensures
        r is Ok <==> row < a2d_rows(*old(a)).len() && column < a2d_width(*old(a)),
        r is Ok ==> a2d_rows(*final(a)) == a2d_rows(*old(a)).update(
            row as int,
            a2d_rows(*old(a))[row as int].update(column as int, element),
        ),
        a2d_width(*final(a)) == a2d_width(*old(a)),
        r is Err ==> *final(a) == *old(a),
{
    a.set(row, column, element)
}

/// Relies on rand: SliceRandom::choose with thread_rng picks some element of
/// a non-empty slice (uniformly; only membership is stated, since the draw is
/// random).
#[verifier::external_body]
pub(crate) fn choose_uniform(choices: &Vec<i32>) -> (r: i32)
    requires
        choices@.len() > 0,
    ensures
        choices@.contains(r),
{
    let mut rng = rand::thread_rng();
    *choices.choose(&mut rng).unwrap()
}

} // verus!
