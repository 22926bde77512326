//! Fixed 2D filter kernels with integer coefficients: sharpen and the
//! two Sobel edge-detection kernels. Each generator returns a fresh 3x3
//! matrix whose every cell is pinned by its contract.

use crate::convolution::bounded_matrix;
use crate::matrix::Matrix;
use vstd::prelude::*;

verus! {

/// Coefficient of the sharpening kernel at `(r, c)`: 5 in the center,
/// -1 at the four edge midpoints, 0 in the corners.
pub open spec fn sharpen_kernel_at(r: int, c: int) -> i64 {
    if r == 1 && c == 1 {
        5i64
    } else if (r == 0 && c == 1) || (r == 1 && c == 0) || (r == 1 && c == 2) || (r == 2 && c == 1) {
        -1i64
    } else {
        0i64
    }
}

/// Coefficient of the Sobel kernel for horizontal gradients at `(r, c)`:
/// column -1/0/+1 weights, doubled in the middle row.
pub open spec fn sobel_x_kernel_at(r: int, c: int) -> i64 {
    if c == 0 {
        if r == 1 {
            -2i64
        } else {
            -1i64
        }
    } else if c == 2 {
        if r == 1 {
            2i64
        } else {
            1i64
        }
    } else {
        0i64
    }
}

/// Coefficient of the Sobel kernel for vertical gradients at `(r, c)`:
/// row +1/0/-1 weights, doubled in the middle column.
pub open spec fn sobel_y_kernel_at(r: int, c: int) -> i64 {
    if r == 0 {
        if c == 1 {
            2i64
        } else {
            1i64
        }
    } else if r == 2 {
        if c == 1 {
            -2i64
        } else {
            -1i64
        }
    } else {
        0i64
    }
}

/// Basic sharpening filter to sharpen edge content of an image.
pub fn sharpen2d() -> (m: Matrix)
    ensures
        m.wf(),
        m.nrows() == 3,
        m.ncols() == 3,
        forall|r: int, c: int|
            0 <= r < 3 && 0 <= c < 3 ==> #[trigger] m.at(r, c) == sharpen_kernel_at(r, c),
        bounded_matrix(m),
{
    let mut m = Matrix::new(3, 3);
    m.set(0, 1, -1);
    m.set(1, 0, -1);
    m.set(1, 1, 5);
    m.set(1, 2, -1);
    m.set(2, 1, -1);
    m
}

/// Sobel filter for edge detection in the X direction.
pub fn sobel_x() -> (m: Matrix)
    ensures
        m.wf(),
        m.nrows() == 3,
        m.ncols() == 3,
        forall|r: int, c: int|
            0 <= r < 3 && 0 <= c < 3 ==> #[trigger] m.at(r, c) == sobel_x_kernel_at(r, c),
        bounded_matrix(m),
{
    let mut m = Matrix::new(3, 3);
    m.set(0, 0, -1);
    m.set(0, 2, 1);
    m.set(1, 0, -2);
    m.set(1, 2, 2);
    m.set(2, 0, -1);
    m.set(2, 2, 1);
    m
}

/// Sobel filter for edge detection in the Y direction.
pub fn sobel_y() -> (m: Matrix)
    ensures
        m.wf(),
        m.nrows() == 3,
        m.ncols() == 3,
        forall|r: int, c: int|
            0 <= r < 3 && 0 <= c < 3 ==> #[trigger] m.at(r, c) == sobel_y_kernel_at(r, c),
        bounded_matrix(m),
{
    let mut m = Matrix::new(3, 3);
    m.set(0, 0, 1);
    m.set(0, 1, 2);
    m.set(0, 2, 1);
    m.set(2, 0, -1);
    m.set(2, 1, -2);
    m.set(2, 2, -1);
    m
}

} // verus!
