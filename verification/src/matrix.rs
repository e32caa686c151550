//! A dense, row-major integer matrix with verified indexing, equality
//! and multiplication.

use vstd::prelude::*;

verus! {

use vstd::std_specs::cmp::PartialEqSpec;

/// Entries this large can be multiplied and summed along any supported
/// dimension without overflowing an `i64` accumulator.
pub const MAX_ENTRY: i64 = 1000000;

/// The largest supported dimension.
pub const MAX_DIM: u32 = 1000;

#[derive(Debug, Clone)]
pub struct Matrix {
    rows: u32,
    cols: u32,
    data: Vec<i64>,
}

/// The dot product of row `r` of `a` and column `c` of `b`, over the
/// first `k` terms.
pub open spec fn dot(a: Matrix, b: Matrix, r: int, c: int, k: int) -> int
    decreases k,
{
    if k <= 0 {
        0
    } else {
        dot(a, b, r, c, k - 1) + a.at(r, k - 1) * b.at(k - 1, c)
    }
}

impl Matrix {
    /// Row-major storage: one entry per cell.
    pub closed spec fn wf(self) -> bool {
        self.data@.len() == self.rows * self.cols
    }

    pub closed spec fn spec_rows(self) -> u32 {
        self.rows
    }

    pub closed spec fn spec_cols(self) -> u32 {
        self.cols
    }

    /// The entry at row `r`, column `c`.
    pub closed spec fn at(self, r: int, c: int) -> i64 {
        self.data@[r * self.cols + c]
    }

    /// Whether every entry is small enough to take part in a product.
    pub open spec fn entries_bounded(self) -> bool {
        forall|r: int, c: int|
            0 <= r < self.spec_rows() && 0 <= c < self.spec_cols() ==> -MAX_ENTRY
                <= #[trigger] self.at(r, c) <= MAX_ENTRY
    }

    /// A `rows` by `cols` matrix of zeros.
    pub fn new(rows: u32, cols: u32) -> (r: Matrix)
        requires
            rows * cols <= u32::MAX,
        ensures
            r.wf(),
            r.spec_rows() == rows,
            r.spec_cols() == cols,
            forall|i: int, j: int| 0 <= i < rows && 0 <= j < cols ==> #[trigger] r.at(i, j) == 0,
    {
        let n: u32 = rows * cols;
        let mut data: Vec<i64> = Vec::new();
        let mut i: u32 = 0;
        while i < n
            invariant
                0 <= i <= n,
                data@.len() == i,
                forall|k: int| 0 <= k < i ==> #[trigger] data@[k] == 0,
            decreases n - i,
        {
            data.push(0);
            i = i + 1;
        }
        let m = Matrix { rows, cols, data };
        proof {
            assert forall|i2: int, j: int|
                0 <= i2 < rows && 0 <= j < cols implies #[trigger] m.at(i2, j) == 0 by {
                assert(0 <= i2 * cols + j < rows * cols) by (nonlinear_arith)
                    requires 0 <= i2 < rows, 0 <= j < cols;
            };
        }
        m
    }

    /// The number of rows.
    pub fn rows(&self) -> (r: u32)
        ensures
            r == self.spec_rows(),
    {
        self.rows
    }

    /// The number of columns.
    pub fn cols(&self) -> (r: u32)
        ensures
            r == self.spec_cols(),
    {
        self.cols
    }

    /// Overwrite the entry at (`row`, `col`).
    pub fn set(&mut self, row: u32, col: u32, val: i64)
        requires
            old(self).wf(),
            row < old(self).spec_rows(),
            col < old(self).spec_cols(),
        ensures
            final(self).wf(),
            final(self).spec_rows() == old(self).spec_rows(),
            final(self).spec_cols() == old(self).spec_cols(),
            forall|r: int, c: int|
                0 <= r < old(self).spec_rows() && 0 <= c < old(self).spec_cols()
                    ==> #[trigger] final(self).at(r, c) == (if r == row && c == col {
                    val
                } else {
                    old(self).at(r, c)
                }),
    {
        let data_len: usize = self.data.len();
        proof {
            assert(row * self.cols + col < self.rows * self.cols && row * self.cols + col
                >= 0) by (nonlinear_arith)
                requires 0 <= row < self.rows, 0 <= col < self.cols;
            assert(self.rows * self.cols == data_len);
        }
        let idx: usize = (row as usize) * (self.cols as usize) + (col as usize);
        self.data[idx] = val;
        proof {
            assert forall|r: int, c: int|
                0 <= r < self.spec_rows() && 0 <= c < self.spec_cols() implies #[trigger] self.at(
                    r,
                    c,
                ) == (if r == row && c == col {
                    val
                } else {
                    old(self).at(r, c)
                }) by {
                assert(0 <= r * self.cols + c < self.rows * self.cols) by (nonlinear_arith)
                    requires 0 <= r < self.rows, 0 <= c < self.cols;
                if !(r == row && c == col) {
                    if r < row {
                        assert(r * self.cols + c < row * self.cols + col) by (nonlinear_arith)
                            requires 0 <= r < row, 0 <= c < self.cols, 0 <= col;
                    } else if r > row {
                        assert(r * self.cols + c > row * self.cols + col) by (nonlinear_arith)
                            requires r > row, row >= 0, c >= 0, 0 <= col < self.cols;
                    }
                }
            };
        }
    }

    /// The entry at (`row`, `col`).
    pub fn get(&self, row: u32, col: u32) -> (r: i64)
        requires
            self.wf(),
            row < self.spec_rows(),
            col < self.spec_cols(),
        ensures
            r == self.at(row as int, col as int),
    {
        let data_len: usize = self.data.len();
        proof {
            assert(row * self.cols + col < self.rows * self.cols && row * self.cols + col
                >= 0) by (nonlinear_arith)
                requires 0 <= row < self.rows, 0 <= col < self.cols;
            assert(self.rows * self.cols == data_len);
        }
        let idx: usize = (row as usize) * (self.cols as usize) + (col as usize);
        self.data[idx]
    }

    /// The matrix product `self * rhs`.
    pub fn mul(self, rhs: Matrix) -> (r: Matrix)
        requires
            self.wf(),
            rhs.wf(),
            self.spec_cols() == rhs.spec_rows(),
            self.spec_rows() <= MAX_DIM,
            self.spec_cols() <= MAX_DIM,
            rhs.spec_cols() <= MAX_DIM,
            self.entries_bounded(),
            rhs.entries_bounded(),
        ensures
            r.wf(),
            r.spec_rows() == self.spec_rows(),
            r.spec_cols() == rhs.spec_cols(),
            forall|i: int, j: int|
                0 <= i < self.spec_rows() && 0 <= j < rhs.spec_cols() ==> #[trigger] r.at(i, j)
                    == dot(self, rhs, i, j, self.spec_cols() as int),
    {
        let rows: u32 = self.rows;
        let cols: u32 = rhs.cols;
        let inner: u32 = self.cols;
        proof {
            assert(rows * cols <= u32::MAX) by (nonlinear_arith)
                requires 0 <= rows <= 1000, 0 <= cols <= 1000;
        }
        let mut result = Matrix::new(rows, cols);
        let mut row: u32 = 0;
        while row < rows
            invariant
                0 <= row <= rows,
                result.wf(),
                result.spec_rows() == rows,
                result.spec_cols() == cols,
                rows == self.spec_rows(),
                cols == rhs.spec_cols(),
                inner == self.spec_cols(),
                self.wf(),
                rhs.wf(),
                self.spec_cols() == rhs.spec_rows(),
                rows <= MAX_DIM,
                inner <= MAX_DIM,
                cols <= MAX_DIM,
                rows * cols <= u32::MAX,
                self.entries_bounded(),
                rhs.entries_bounded(),
                forall|i: int, j: int|
                    0 <= i < row && 0 <= j < cols ==> #[trigger] result.at(i, j) == dot(
                        self,
                        rhs,
                        i,
                        j,
                        inner as int,
                    ),
            decreases rows - row,
        {
            let mut col: u32 = 0;
            while col < cols
                invariant
                    0 <= row < rows,
                    0 <= col <= cols,
                    result.wf(),
                    result.spec_rows() == rows,
                    result.spec_cols() == cols,
                    rows == self.spec_rows(),
                    cols == rhs.spec_cols(),
                    inner == self.spec_cols(),
                    self.wf(),
                    rhs.wf(),
                    self.spec_cols() == rhs.spec_rows(),
                    rows <= MAX_DIM,
                    inner <= MAX_DIM,
                    cols <= MAX_DIM,
                    rows * cols <= u32::MAX,
                    self.entries_bounded(),
                    rhs.entries_bounded(),
                    forall|i: int, j: int|
                        0 <= i < row && 0 <= j < cols ==> #[trigger] result.at(i, j) == dot(
                            self,
                            rhs,
                            i,
                            j,
                            inner as int,
                        ),
                    forall|j: int|
                        0 <= j < col ==> #[trigger] result.at(row as int, j) == dot(
                            self,
                            rhs,
                            row as int,
                            j,
                            inner as int,
                        ),
                decreases cols - col,
            {
                let mut acc: i64 = 0;
                let mut k: u32 = 0;
                while k < inner
                    invariant
                        0 <= k <= inner,
                        0 <= row < rows,
                        0 <= col < cols,
                        rows == self.spec_rows(),
                        cols == rhs.spec_cols(),
                        inner == self.spec_cols(),
                        self.wf(),
                        rhs.wf(),
                        self.spec_cols() == rhs.spec_rows(),
                        inner <= MAX_DIM,
                        self.entries_bounded(),
                        rhs.entries_bounded(),
                        acc == dot(self, rhs, row as int, col as int, k as int),
                        -(k as int) * MAX_ENTRY * MAX_ENTRY <= acc <= (k as int) * MAX_ENTRY
                            * MAX_ENTRY,
                    decreases inner - k,
                {
                    let a = self.get(row, k);
                    let b = rhs.get(k, col);
                    proof {
                        assert(-MAX_ENTRY * MAX_ENTRY <= a * b <= MAX_ENTRY
                            * MAX_ENTRY) by (nonlinear_arith)
                            requires -MAX_ENTRY <= a <= MAX_ENTRY, -MAX_ENTRY <= b <= MAX_ENTRY;
                        assert((k as int + 1) * MAX_ENTRY * MAX_ENTRY == (k as int) * MAX_ENTRY
                            * MAX_ENTRY + MAX_ENTRY * MAX_ENTRY) by (nonlinear_arith);
                        assert((k as int + 1) * MAX_ENTRY * MAX_ENTRY <= 1000001 * MAX_ENTRY
                            * MAX_ENTRY) by (nonlinear_arith)
                            requires k as int + 1 <= 1000001;
                    }
                    acc = acc + a * b;
                    k = k + 1;
                }
                result.set(row, col, acc);
                col = col + 1;
            }
            row = row + 1;
        }
        result
    }
}

impl PartialEq for Matrix {
    /// Equal when the dimensions and all stored entries agree.
    fn eq(&self, other: &Matrix) -> (r: bool) {
        if self.rows != other.rows {
            return false;
        }
        if self.cols != other.cols {
            return false;
        }
        if self.data.len() != other.data.len() {
            return false;
        }
        let mut i: usize = 0;
        while i < self.data.len()
            invariant
                0 <= i <= self.data@.len(),
                self.data@.len() == other.data@.len(),
                self.rows == other.rows,
                self.cols == other.cols,
                forall|j: int| 0 <= j < i ==> self.data@[j] == other.data@[j],
            decreases self.data@.len() - i,
        {
            if self.data[i] != other.data[i] {
                return false;
            }
            i = i + 1;
        }
        proof {
            assert(self.data@ =~= other.data@);
        }
        true
    }
}

impl Eq for Matrix {

}

/// What `==` on matrices means: for well-formed matrices it is exactly
/// agreement of the dimensions and of every in-bounds entry.
pub proof fn lemma_matrix_eq_meaning(a: &Matrix, b: &Matrix)
    requires
        a.wf(),
        b.wf(),
    ensures
        a.eq_spec(b) <==> (a.spec_rows() == b.spec_rows() && a.spec_cols() == b.spec_cols()
            && forall|r: int, c: int|
            0 <= r < a.spec_rows() && 0 <= c < a.spec_cols() ==> #[trigger] a.at(r, c) == b.at(
                r,
                c,
            )),
{
    if a.eq_spec(b) {
        assert forall|r: int, c: int|
            0 <= r < a.spec_rows() && 0 <= c < a.spec_cols() implies #[trigger] a.at(r, c) == b.at(
            r,
            c,
        ) by {
            assert(0 <= r * a.cols + c < a.rows * a.cols) by (nonlinear_arith)
                requires 0 <= r < a.rows, 0 <= c < a.cols;
        };
    }
    if a.spec_rows() == b.spec_rows() && a.spec_cols() == b.spec_cols() && (forall|r: int, c: int|
        0 <= r < a.spec_rows() && 0 <= c < a.spec_cols() ==> #[trigger] a.at(r, c) == b.at(
            r,
            c,
        )) {
        assert forall|k: int| 0 <= k < a.data@.len() implies a.data@[k] == b.data@[k] by {
            let r = k / (a.cols as int);
            let c = k % (a.cols as int);
            assert(a.cols > 0) by (nonlinear_arith)
                requires 0 <= k < a.rows * a.cols;
            assert(0 <= c < a.cols && k == r * a.cols + c) by (nonlinear_arith)
                requires a.cols > 0, r == k / (a.cols as int), c == k % (a.cols as int);
            assert(0 <= r < a.rows) by (nonlinear_arith)
                requires 0 <= k < a.rows * a.cols, a.cols > 0, r == k / (a.cols as int);
            assert(a.at(r, c) == b.at(r, c));
        };
        assert(a.data@ =~= b.data@);
    }
}

impl vstd::std_specs::cmp::PartialEqSpecImpl for Matrix {
    open spec fn obeys_eq_spec() -> bool {
        true
    }

    closed spec fn eq_spec(&self, other: &Matrix) -> bool {
        self.rows == other.rows && self.cols == other.cols && self.data@ == other.data@
    }
}

} // verus!
