//! Shape checks on matrices given as vectors of rows.

use vstd::prelude::*;

verus! {

/// The rows form a matrix: there is at least one row, and every row is as
/// long as the first.
pub open spec fn is_rectangular<T>(rows: Seq<Vec<T>>) -> bool {
    rows.len() > 0 && forall|i: int| 0 <= i < rows.len() ==> (#[trigger] rows[i]).len() == rows[0].len()
}

/// Whether `matrix` has at least one row and all rows have the same length.
pub fn check<T>(matrix: &Vec<Vec<T>>) -> (ok: bool)
    ensures
        ok == is_rectangular(matrix@),
{
    if matrix.len() == 0 {
        return false;
    }
    let width = matrix[0].len();
    let mut i: usize = 0;
    while i < matrix.len()
        invariant
            i <= matrix.len(),
            matrix.len() > 0,
            width == matrix@[0].len(),
            forall|j: int| 0 <= j < i ==> (#[trigger] matrix@[j]).len() == width,
        decreases matrix.len() - i,
    {
        if matrix[i].len() != width {
            return false;
        }
        i = i + 1;
    }
    true
}

} // verus!
