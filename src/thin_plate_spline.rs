use vstd::prelude::*;

verus! {

/// Why a pair of flat point arrays cannot build a thin-plate spline.
#[derive(Clone, Copy, Debug, PartialEq, Eq, Structural)]
pub enum ShapeError {
    /// An array holds an odd number of values, so it is not a list of `(x, y)` pairs.
    OddLength,
    /// An array holds three values or fewer: less than two points.
    TooFewPoints,
    /// The two arrays hold different numbers of points.
    LengthMismatch,
}

/// The outcome of checking arrays of `source_len` and `destination_len`
/// values: the odd length is reported first, then too few points, then a
/// difference in length; arrays that pass give their number of points.
pub open spec fn shape_check(source_len: nat, destination_len: nat) -> Result<nat, ShapeError> {
    if source_len % 2 != 0 || destination_len % 2 != 0 {
        Err(ShapeError::OddLength)
    } else if source_len <= 3 || destination_len <= 3 {
        Err(ShapeError::TooFewPoints)
    } else if source_len != destination_len {
        Err(ShapeError::LengthMismatch)
    } else {
        Ok(source_len / 2)
    }
}

/// Checks the lengths of a source and a destination array of interleaved
/// `[x0, y0, x1, y1, ...]` values before any matrix is built, and gives the
/// number of point pairs.
pub fn check_point_arrays(source_len: usize, destination_len: usize) -> (r: Result<
    usize,
    ShapeError,
>)
    ensures
        match shape_check(source_len as nat, destination_len as nat) {
            Ok(n) => r == Ok::<usize, ShapeError>(n as usize),
            Err(e) => r == Err::<usize, ShapeError>(e),
        },
{
    if source_len % 2 != 0 || destination_len % 2 != 0 {
        Err(ShapeError::OddLength)
    } else if source_len <= 3 || destination_len <= 3 {
        Err(ShapeError::TooFewPoints)
    } else if source_len != destination_len {
        Err(ShapeError::LengthMismatch)
    } else {
        Ok(source_len / 2)
    }
}

} // verus!
