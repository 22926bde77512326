//! A rectangular, row-major matrix of integer samples, used both for
//! images and for 2D filter kernels. All rows have equal length.

use vstd::prelude::*;

verus! {

/// `r * cols + c` addresses a cell inside an `rows * cols` buffer.
proof fn lemma_row_major_index_in_range(r: int, c: int, rows: int, cols: int)
    by (nonlinear_arith)
    requires
        0 <= r < rows,
        0 <= c < cols,
    ensures
        0 <= r * cols + c < rows * cols,
{
}

/// Distinct in-range cell coordinates address distinct buffer slots.
proof fn lemma_row_major_index_injective(r1: int, c1: int, r2: int, c2: int, cols: int)
    by (nonlinear_arith)
    requires
        0 <= c1 < cols,
        0 <= c2 < cols,
        0 <= r1,
        0 <= r2,
        r1 * cols + c1 == r2 * cols + c2,
    ensures
        r1 == r2 && c1 == c2,
{
}

/// A rectangular 2D array of integer samples, stored row-major.
pub struct Matrix {
    rows: usize,
    cols: usize,
    data: Vec<i64>,
}

impl Matrix {
    /// The storage holds exactly one sample per cell.
    pub closed spec fn wf(&self) -> bool {
        self.data@.len() == self.rows * self.cols
    }

    pub closed spec fn nrows(&self) -> nat {
        self.rows as nat
    }

    pub closed spec fn ncols(&self) -> nat {
        self.cols as nat
    }

    /// The sample stored at row `r`, column `c` (meaningful when both are
    /// in range).
    pub closed spec fn at(&self, r: int, c: int) -> i64 {
        self.data@[r * (self.ncols() as int) + c]
    }

    /// A fresh all-zero matrix of the given dimensions.
    pub fn new(rows: usize, cols: usize) -> (m: Matrix)
        requires
            rows * cols <= usize::MAX,
        ensures
            m.wf(),
            m.nrows() == rows,
            m.ncols() == cols,
            forall|r: int, c: int|
                0 <= r < rows && 0 <= c < cols ==> #[trigger] m.at(r, c) == 0i64,
    {
        let total = rows * cols;
        let mut data: Vec<i64> = Vec::new();
        let mut i: usize = 0;
        while i < total
            invariant
                data@.len() == i,
                i <= total,
                forall|j: int| 0 <= j < i ==> data@[j] == 0i64,
            decreases total - i,
        {
            data.push(0i64);
            i += 1;
        }
        let m = Matrix { rows, cols, data };
        proof {
            assert forall|r: int, c: int|
                0 <= r < rows && 0 <= c < cols implies #[trigger] m.at(r, c) == 0i64 by {
                lemma_row_major_index_in_range(r, c, rows as int, cols as int);
            }
        }
        m
    }

    pub fn rows(&self) -> (n: usize)
        ensures
            n == self.nrows(),
    {
        self.rows
    }

    pub fn cols(&self) -> (n: usize)
        ensures
            n == self.ncols(),
    {
        self.cols
    }

    /// Reads the sample at row `r`, column `c`.
    pub fn get(&self, r: usize, c: usize) -> (v: i64)
        requires
            self.wf(),
            r < self.nrows(),
            c < self.ncols(),
        ensures
            v == self.at(r as int, c as int),
    {
        let n = self.data.len();
        proof {
            lemma_row_major_index_in_range(
                r as int,
                c as int,
                self.nrows() as int,
                self.ncols() as int,
            );
            assert((r as int) * (self.ncols() as int) + (c as int) < (n as int));
        }
        let idx = r * self.cols + c;
        self.data[idx]
    }

    /// Overwrites the sample at row `r`, column `c`; every other cell and
    /// the dimensions stay as they were.
    pub fn set(&mut self, r: usize, c: usize, v: i64)
        requires
            old(self).wf(),
            r < old(self).nrows(),
            c < old(self).ncols(),
        ensures
            final(self).wf(),
            final(self).nrows() == old(self).nrows(),
            final(self).ncols() == old(self).ncols(),
            final(self).at(r as int, c as int) == v,
            forall|r2: int, c2: int|
                0 <= r2 < old(self).nrows() && 0 <= c2 < old(self).ncols()
                    && !(r2 == r && c2 == c)
                    ==> #[trigger] final(self).at(r2, c2) == old(self).at(r2, c2),
    {
        let n = self.data.len();
        proof {
            lemma_row_major_index_in_range(
                r as int,
                c as int,
                self.nrows() as int,
                self.ncols() as int,
            );
            assert((r as int) * (self.ncols() as int) + (c as int) < (n as int));
        }
        let idx = r * self.cols + c;
        self.data.set(idx, v);
        proof {
            assert forall|r2: int, c2: int|
                0 <= r2 < old(self).nrows() && 0 <= c2 < old(self).ncols()
                    && !(r2 == r && c2 == c)
                    implies #[trigger] self.at(r2, c2) == old(self).at(r2, c2) by {
                lemma_row_major_index_in_range(r2, c2, self.nrows() as int, self.ncols() as int);
                if r2 * (self.ncols() as int) + c2 == (r as int) * (self.ncols() as int) + (c as int) {
                    lemma_row_major_index_injective(
                        r2,
                        c2,
                        r as int,
                        c as int,
                        self.ncols() as int,
                    );
                }
            }
        }
    }
}

/// Every sample of the matrix is zero.
pub open spec fn matrix_all_zero(m: Matrix) -> bool {
    forall|r: int, c: int|
        0 <= r < m.nrows() && 0 <= c < m.ncols() ==> #[trigger] m.at(r, c) == 0i64
}

} // verus!
