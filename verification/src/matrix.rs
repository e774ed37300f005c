//! Matrices: a shape-checked container of cells, its limits and errors, and
//! the permutation machinery that the determinant sums over.

use vstd::prelude::*;

use crate::expression::model::{call2, copy_expr, zero_model, ExprModel, FunctionModel};
use crate::expression::ArithmaExpression;

verus! {

/// Largest number of rows or columns accepted.
///
/// Every loop over a matrix is bounded by its dimensions, so the dimensions
/// are bounded too; this is far beyond symbolic use while keeping
/// `rows * cols` clear of overflow.
pub const MAX_DIMENSION: usize = 4096;

/// Largest matrix a determinant will be attempted on.
///
/// The determinant sums over permutations, which is O(n!): 720 terms at this
/// order. Refusing a larger matrix is better than an unbounded wait.
pub const MAX_DETERMINANT_ORDER: usize = 6;

/// Why a matrix operation could not be performed.
///
/// Operations return this rather than panicking, so a dimension mismatch in
/// caller data is a handleable error and not a crash.
#[derive(Debug, Clone, Copy, PartialEq, Eq)]
pub enum MatrixError {
    /// Operand shapes are incompatible; carries both shapes.
    DimensionMismatch { left: (usize, usize), right: (usize, usize) },
    /// An index was outside the matrix.
    OutOfBounds { row: usize, col: usize },
    /// The operation requires a square matrix.
    NotSquare { rows: usize, cols: usize },
    /// The matrix is larger than the operation's cap.
    TooLarge { order: usize, limit: usize },
    /// The determinant is exactly zero, so there is no inverse.
    Singular,
    /// A cell does not evaluate to a finite number, and the operation needs
    /// one. Carries the first offending position.
    NotNumeric { row: usize, col: usize },
}

/// The first row from `from` on whose length is not `cols`.
pub open spec fn first_ragged<T>(rows: Seq<Vec<T>>, cols: nat, from: int) -> Option<int>
    decreases rows.len() - from,
{
    if from < 0 || from >= rows.len() {
        None
    } else if rows[from]@.len() != cols {
        Some(from)
    } else {
        first_ragged(rows, cols, from + 1)
    }
}

/// The column count that a list of rows announces: that of its first row.
pub open spec fn announced_cols<T>(rows: Seq<Vec<T>>) -> nat {
    if rows.len() == 0 {
        0
    } else {
        rows[0]@.len()
    }
}

/// Index `k` of the matrix that has line `skip` deleted: `k`, or `k + 1`
/// from `skip` on.
pub open spec fn past(k: int, skip: int) -> int {
    if k < skip {
        k
    } else {
        k + 1
    }
}

proof fn lemma_no_ragged_row<T>(rows: Seq<Vec<T>>, cols: nat, from: int, k: int)
    requires
        0 <= from <= k < rows.len(),
        first_ragged(rows, cols, from) is None,
    ensures
        rows[k]@.len() == cols,
    decreases k - from,
{
    if from < k {
        lemma_no_ragged_row(rows, cols, from + 1, k);
    }
}

/// A `rows` x `cols` matrix, its cells in one list, row after row.
#[derive(Debug, Clone)]
pub struct ArithmaMatrix<T> {
    pub rows: usize,
    pub cols: usize,
    pub cells: Vec<T>,
}

proof fn lemma_cell_index(row: int, col: int, rows: int, cols: int)
    requires
        0 <= row < rows,
        0 <= col < cols,
    ensures
        0 <= row * cols + col < rows * cols,
        row * cols + col + 1 <= (row + 1) * cols,
{
    assert(row * cols + col < rows * cols) by (nonlinear_arith)
        requires
            0 <= row < rows,
            0 <= col < cols,
    ;
    assert(0 <= row * cols) by (nonlinear_arith)
        requires
            0 <= row,
            0 <= col < cols,
    ;
    assert((row + 1) * cols == row * cols + cols) by (nonlinear_arith);
}

impl<T> ArithmaMatrix<T> {
    /// The cell list holds exactly `rows * cols` cells.
    pub open spec fn wf(&self) -> bool {
        self.cells@.len() == self.rows * self.cols
    }

    /// The cell at `(row, col)`.
    pub open spec fn cell(&self, row: int, col: int) -> T {
        self.cells@[row * self.cols + col]
    }

    /// A matrix from a row-major cell list, which must hold `rows * cols`
    /// cells.
    pub fn new(rows: usize, cols: usize, cells: Vec<T>) -> (m: Self)
        requires
            cells@.len() == rows * cols,
        ensures
            m.rows == rows,
            m.cols == cols,
            m.cells@ == cells@,
            m.wf(),
    {
        ArithmaMatrix { rows, cols, cells }
    }

    /// Total cell count.
    pub fn len(&self) -> (n: usize)
        ensures
            n == self.cells@.len(),
    {
        self.cells.len()
    }

    /// Whether the matrix has no cells.
    pub fn is_empty(&self) -> (e: bool)
        ensures
            e == (self.cells@.len() == 0),
    {
        self.cells.len() == 0
    }

    /// Flat index of `(row, col)`, when it is inside the matrix.
    pub fn offset(&self, row: usize, col: usize) -> (at: Option<usize>)
        requires
            self.wf(),
        ensures
            at is Some <==> (row < self.rows && col < self.cols),
            at matches Some(k) ==> k == row * self.cols + col && k < self.cells@.len(),
    {
        if row >= self.rows || col >= self.cols {
            return None;
        }
        let total = self.cells.len();
        proof {
            lemma_cell_index(row as int, col as int, self.rows as int, self.cols as int);
        }
        Some(row * self.cols + col)
    }

    /// Borrow the cell at `(row, col)`.
    pub fn get(&self, row: usize, col: usize) -> (r: Result<&T, MatrixError>)
        requires
            self.wf(),
        ensures
            (row < self.rows && col < self.cols) ==> (r matches Ok(v) && *v == self.cell(
                row as int,
                col as int,
            )),
            !(row < self.rows && col < self.cols) ==> r == Err::<&T, MatrixError>(
                MatrixError::OutOfBounds { row, col },
            ),
    {
        match self.offset(row, col) {
            Some(index) => Ok(&self.cells[index]),
            None => Err(MatrixError::OutOfBounds { row, col }),
        }
    }

    /// Replace the cell at `(row, col)`.
    pub fn set(&mut self, row: usize, col: usize, value: T) -> (r: Result<(), MatrixError>)
        requires
            old(self).wf(),
        ensures
            final(self).wf(),
            final(self).rows == old(self).rows,
            final(self).cols == old(self).cols,
            (row < old(self).rows && col < old(self).cols) ==> r is Ok && final(self).cells@
                == old(self).cells@.update(row * old(self).cols + col, value),
            !(row < old(self).rows && col < old(self).cols) ==> r == Err::<(), MatrixError>(
                MatrixError::OutOfBounds { row, col },
            ) && final(self).cells@ == old(self).cells@,
    {
        match self.offset(row, col) {
            Some(index) => {
                self.cells.set(index, value);
                Ok(())
            },
            None => Err(MatrixError::OutOfBounds { row, col }),
        }
    }

    /// Build from a list of rows, which must all have the length of the
    /// first; the first row of another length is reported.
    pub fn from_rows(rows: Vec<Vec<T>>) -> (r: Result<Self, MatrixError>)
        ensures
            ({
                let rc = rows@.len();
                let cc = announced_cols(rows@);
                match first_ragged(rows@, cc, 0) {
                    Some(i) => r == Err::<Self, MatrixError>(
                        MatrixError::DimensionMismatch {
                            left: (1, cc as usize),
                            right: (1, rows@[i]@.len() as usize),
                        },
                    ),
                    None => if rc > MAX_DIMENSION || cc > MAX_DIMENSION {
                        r == Err::<Self, MatrixError>(
                            MatrixError::TooLarge {
                                order: if rc >= cc {
                                    rc as usize
                                } else {
                                    cc as usize
                                },
                                limit: MAX_DIMENSION,
                            },
                        )
                    } else {
                        r matches Ok(m) && m.rows == rc && m.cols == cc && m.wf() && forall|
                            i: int,
                            j: int,
                        | 0 <= i < rc && 0 <= j < cc ==> #[trigger] m.cell(i, j) == rows@[i]@[j]
                    },
                }
            }),
    {
        let ghost all = rows@;
        let row_count = rows.len();
        let col_count = if row_count == 0 {
            0
        } else {
            rows[0].len()
        };
        let mut i: usize = 0;
        while i < row_count
            invariant
                all == rows@,
                row_count == all.len(),
                col_count == announced_cols(all),
                i <= row_count,
                first_ragged(all, col_count as nat, 0) == first_ragged(all, col_count as nat, i as int),
            decreases row_count - i,
        {
            if rows[i].len() != col_count {
                return Err(
                    MatrixError::DimensionMismatch {
                        left: (1, col_count),
                        right: (1, rows[i].len()),
                    },
                );
            }
            i = i + 1;
        }
        if row_count > MAX_DIMENSION || col_count > MAX_DIMENSION {
            return Err(
                MatrixError::TooLarge {
                    order: if row_count >= col_count {
                        row_count
                    } else {
                        col_count
                    },
                    limit: MAX_DIMENSION,
                },
            );
        }
        assert forall|k: int| 0 <= k < row_count implies (#[trigger] all[k])@.len() == col_count by {
            lemma_no_ragged_row(all, col_count as nat, 0, k);
        }
        let mut cells: Vec<T> = Vec::new();
        for row in it: rows
            invariant
                it.seq() == all,
                row_count == all.len(),
                row_count <= MAX_DIMENSION,
                col_count <= MAX_DIMENSION,
                forall|k: int| 0 <= k < row_count ==> (#[trigger] all[k])@.len() == col_count,
                cells@.len() == it.index() * col_count,
                forall|a: int, b: int|
                    0 <= a < it.index() && 0 <= b < col_count ==> #[trigger] cells@[a * col_count
                        + b] == all[a]@[b],
        {
            let ghost k = it.index() as int;
            let ghost base = cells@.len();
            assert(row == all[k]);
            assert(k * col_count + col_count <= MAX_DIMENSION * MAX_DIMENSION) by (nonlinear_arith)
                requires
                    0 <= k < row_count,
                    row_count <= MAX_DIMENSION,
                    col_count <= MAX_DIMENSION,
            ;
            for cell in jt: row
                invariant
                    jt.seq() == all[k]@,
                    all[k]@.len() == col_count,
                    base == k * col_count,
                    k * col_count + col_count <= MAX_DIMENSION * MAX_DIMENSION,
                    cells@.len() == base + jt.index(),
                    forall|b: int| 0 <= b < jt.index() ==> #[trigger] cells@[base + b] == all[k]@[b],
                    forall|a: int, b: int|
                        0 <= a < k && 0 <= b < col_count ==> #[trigger] cells@[a * col_count + b]
                            == all[a]@[b],
            {
                let ghost c = jt.index() as int;
                let ghost before = cells@;
                cells.push(cell);
                proof {
                    assert forall|a: int, b: int| 0 <= a < k && 0 <= b < col_count implies #[trigger] cells@[a
                        * col_count + b] == all[a]@[b] by {
                        assert(a * col_count + b < k * col_count) by (nonlinear_arith)
                            requires
                                0 <= a < k,
                                0 <= b < col_count,
                        ;
                        assert(cells@[a * col_count + b] == before[a * col_count + b]);
                    }
                }
            }
            proof {
                assert forall|a: int, b: int| 0 <= a < k + 1 && 0 <= b < col_count implies #[trigger] cells@[a
                    * col_count + b] == all[a]@[b] by {
                    if a == k {
                        assert(cells@[base + b] == all[k]@[b]);
                    }
                }
                assert((k + 1) * col_count == k * col_count + col_count) by (nonlinear_arith);
            }
        }
        Ok(ArithmaMatrix { rows: row_count, cols: col_count, cells })
    }

    /// True when the matrix has as many rows as columns.
    pub fn is_square(&self) -> (sq: bool)
        ensures
            sq == (self.rows == self.cols),
    {
        self.rows == self.cols
    }

    /// The shape as `(rows, cols)`.
    pub fn shape(&self) -> (sh: (usize, usize))
        ensures
            sh == (self.rows, self.cols),
    {
        (self.rows, self.cols)
    }
}

impl<T: Clone> ArithmaMatrix<T> {
    /// A `rows` x `cols` matrix with every cell a clone of `zero`.
    pub fn zeros(rows: usize, cols: usize, zero: T) -> (r: Result<Self, MatrixError>)
        ensures
            (rows > MAX_DIMENSION || cols > MAX_DIMENSION) ==> r == Err::<Self, MatrixError>(
                MatrixError::TooLarge {
                    order: if rows >= cols {
                        rows
                    } else {
                        cols
                    },
                    limit: MAX_DIMENSION,
                },
            ),
            (rows <= MAX_DIMENSION && cols <= MAX_DIMENSION) ==> (r matches Ok(m) && m.rows
                == rows && m.cols == cols && m.wf() && forall|k: int|
                0 <= k < m.cells@.len() ==> cloned(zero, #[trigger] m.cells@[k])),
    {
        if rows > MAX_DIMENSION || cols > MAX_DIMENSION {
            return Err(
                MatrixError::TooLarge {
                    order: if rows >= cols {
                        rows
                    } else {
                        cols
                    },
                    limit: MAX_DIMENSION,
                },
            );
        }
        assert(rows * cols <= MAX_DIMENSION * MAX_DIMENSION) by (nonlinear_arith)
            requires
                rows <= MAX_DIMENSION,
                cols <= MAX_DIMENSION,
        ;
        let cells = vec![zero; rows * cols];
        Ok(ArithmaMatrix { rows, cols, cells })
    }

    /// The `n` x `n` identity: clones of `one` on the diagonal, of `zero`
    /// elsewhere.
    pub fn identity(n: usize, zero: T, one: T) -> (r: Result<Self, MatrixError>)
        ensures
            n > MAX_DIMENSION ==> r == Err::<Self, MatrixError>(
                MatrixError::TooLarge { order: n, limit: MAX_DIMENSION },
            ),
            n <= MAX_DIMENSION ==> (r matches Ok(m) && m.rows == n && m.cols == n && m.wf() && (
            forall|i: int, j: int|
                0 <= i < n && 0 <= j < n ==> if i == j {
                    cloned(one, #[trigger] m.cell(i, j))
                } else {
                    cloned(zero, m.cell(i, j))
                })),
    {
        let mut out = match Self::zeros(n, n, zero) {
            Ok(m) => m,
            Err(e) => {
                return Err(e);
            },
        };
        let ghost z = zero;
        let total = out.cells.len();
        assert forall|a: int, b: int| 0 <= a < n && 0 <= b < n implies cloned(
            z,
            #[trigger] out.cell(a, b),
        ) by {
            lemma_cell_index(a, b, n as int, n as int);
        }
        let mut i: usize = 0;
        while i < n
            invariant
                out.rows == n,
                out.cols == n,
                out.wf(),
                total == out.cells@.len(),
                n <= MAX_DIMENSION,
                i <= n,
                forall|a: int, b: int|
                    0 <= a < n && 0 <= b < n ==> if a == b && a < i {
                        cloned(one, #[trigger] out.cell(a, b))
                    } else {
                        cloned(z, out.cell(a, b))
                    },
            decreases n - i,
        {
            proof {
                lemma_cell_index(i as int, i as int, n as int, n as int);
            }
            let ghost before = out;
            let value = one.clone();
            out.cells.set(i * n + i, value);
            proof {
                assert forall|a: int, b: int| 0 <= a < n && 0 <= b < n implies if a == b && a < i
                    + 1 {
                    cloned(one, #[trigger] out.cell(a, b))
                } else {
                    cloned(z, out.cell(a, b))
                } by {
                    lemma_cell_index(a, b, n as int, n as int);
                    if a * n + b == i * n + i {
                        assert(a == i && b == i) by (nonlinear_arith)
                            requires
                                a * n + b == i * n + i,
                                0 <= a < n,
                                0 <= b < n,
                                0 <= i < n,
                        ;
                        assert(out.cell(a, b) == value);
                    } else {
                        assert(out.cell(a, b) == before.cell(a, b));
                    }
                }
            }
            i = i + 1;
        }
        Ok(out)
    }

    /// The transpose: its `(i, j)` cell is a clone of this one's `(j, i)`.
    pub fn transpose(&self) -> (t: Self)
        requires
            self.wf(),
        ensures
            t.rows == self.cols,
            t.cols == self.rows,
            t.wf(),
            forall|i: int, j: int|
                0 <= i < self.cols && 0 <= j < self.rows ==> cloned(
                    self.cell(j, i),
                    #[trigger] t.cell(i, j),
                ),
    {
        let rows = self.rows;
        let cols = self.cols;
        let total = self.cells.len();
        let mut cells: Vec<T> = Vec::new();
        let mut col: usize = 0;
        while col < cols
            invariant
                self.wf(),
                total == self.cells@.len(),
                rows == self.rows,
                cols == self.cols,
                col <= cols,
                cells@.len() == col * rows,
                forall|c: int, r: int|
                    0 <= c < col && 0 <= r < rows ==> cloned(
                        self.cells@[r * cols + c],
                        #[trigger] cells@[c * rows + r],
                    ),
            decreases cols - col,
        {
            let mut row: usize = 0;
            while row < rows
                invariant
                    self.wf(),
                    total == self.cells@.len(),
                    rows == self.rows,
                    cols == self.cols,
                    col < cols,
                    row <= rows,
                    cells@.len() == col * rows + row,
                    forall|c: int, r: int|
                        (0 <= c < col && 0 <= r < rows) || (c == col && 0 <= r < row) ==> cloned(
                            self.cells@[r * cols + c],
                            #[trigger] cells@[c * rows + r],
                        ),
                decreases rows - row,
            {
                proof {
                    lemma_cell_index(row as int, col as int, rows as int, cols as int);
                    lemma_cell_index(col as int, row as int, cols as int, rows as int);
                }
                let v = self.cells[row * cols + col].clone();
                let ghost before = cells@;
                cells.push(v);
                proof {
                    assert forall|c: int, r: int|
                        (0 <= c < col && 0 <= r < rows) || (c == col && 0 <= r < row + 1) implies
                        cloned(self.cells@[r * cols + c], #[trigger] cells@[c * rows + r]) by {
                        if c == col && r == row {
                        } else {
                            assert(c * rows + r < col * rows + row) by (nonlinear_arith)
                                requires
                                    (0 <= c < col && 0 <= r < rows) || (c == col && 0 <= r < row),
                            ;
                            assert(cells@[c * rows + r] == before[c * rows + r]);
                        }
                    }
                }
                row = row + 1;
            }
            assert((col + 1) * rows == col * rows + rows) by (nonlinear_arith);
            col = col + 1;
        }
        assert(cols * rows == rows * cols) by (nonlinear_arith);
        ArithmaMatrix { rows: cols, cols: rows, cells }
    }

    /// The `(row, col)` minor: this matrix with that row and that column
    /// deleted. Requires a square matrix and a position inside it.
    pub fn minor(&self, row: usize, col: usize) -> (r: Result<Self, MatrixError>)
        requires
            self.wf(),
        ensures
            self.rows != self.cols ==> r == Err::<Self, MatrixError>(
                MatrixError::NotSquare { rows: self.rows, cols: self.cols },
            ),
            self.rows == self.cols && !(row < self.rows && col < self.cols) ==> r == Err::<
                Self,
                MatrixError,
            >(MatrixError::OutOfBounds { row, col }),
            self.rows == self.cols && row < self.rows && col < self.cols ==> (r matches Ok(m)
                && m.rows == self.rows - 1 && m.cols == self.cols - 1 && m.wf() && forall|
                a: int,
                b: int,
            |
                0 <= a < m.rows && 0 <= b < m.cols ==> cloned(
                    self.cell(past(a, row as int), past(b, col as int)),
                    #[trigger] m.cell(a, b),
                )),
    {
        if self.rows != self.cols {
            return Err(MatrixError::NotSquare { rows: self.rows, cols: self.cols });
        }
        if row >= self.rows || col >= self.cols {
            return Err(MatrixError::OutOfBounds { row, col });
        }
        let n = self.rows;
        let m = n - 1;
        let total = self.cells.len();
        let mut cells: Vec<T> = Vec::new();
        let mut i: usize = 0;
        let mut out_row: usize = 0;
        while i < n
            invariant
                self.wf(),
                total == self.cells@.len(),
                n == self.rows,
                n == self.cols,
                m + 1 == n,
                row < n,
                col < n,
                i <= n,
                out_row == (if i <= row {
                    i
                } else {
                    (i - 1) as usize
                }),
                cells@.len() == out_row * m,
                forall|a: int, b: int|
                    0 <= a < out_row && 0 <= b < m ==> cloned(
                        self.cell(past(a, row as int), past(b, col as int)),
                        #[trigger] cells@[a * m + b],
                    ),
            decreases n - i,
        {
            if i != row {
                let mut j: usize = 0;
                let mut out_col: usize = 0;
                while j < n
                    invariant
                        self.wf(),
                        total == self.cells@.len(),
                        n == self.rows,
                        n == self.cols,
                        m + 1 == n,
                        row < n,
                        col < n,
                        i < n,
                        i != row,
                        j <= n,
                        out_row == (if i <= row {
                            i
                        } else {
                            (i - 1) as usize
                        }),
                        out_col == (if j <= col {
                            j
                        } else {
                            (j - 1) as usize
                        }),
                        cells@.len() == out_row * m + out_col,
                        forall|a: int, b: int|
                            (0 <= a < out_row && 0 <= b < m) || (a == out_row && 0 <= b < out_col)
                                ==> cloned(
                                self.cell(past(a, row as int), past(b, col as int)),
                                #[trigger] cells@[a * m + b],
                            ),
                    decreases n - j,
                {
                    if j != col {
                        proof {
                            lemma_cell_index(i as int, j as int, n as int, n as int);
                            assert(past(out_row as int, row as int) == i);
                            assert(past(out_col as int, col as int) == j);
                        }
                        let v = self.cells[i * n + j].clone();
                        let ghost before = cells@;
                        cells.push(v);
                        proof {
                            assert forall|a: int, b: int|
                                (0 <= a < out_row && 0 <= b < m) || (a == out_row && 0 <= b
                                    < out_col + 1) implies cloned(
                                self.cell(past(a, row as int), past(b, col as int)),
                                #[trigger] cells@[a * m + b],
                            ) by {
                                if a == out_row && b == out_col {
                                } else {
                                    assert(a * m + b < out_row * m + out_col) by (nonlinear_arith)
                                        requires
                                            (0 <= a < out_row && 0 <= b < m) || (a == out_row
                                                && 0 <= b < out_col),
                                    ;
                                    assert(cells@[a * m + b] == before[a * m + b]);
                                }
                            }
                        }
                        out_col = out_col + 1;
                    }
                    j = j + 1;
                }
                assert(out_col == m);
                assert(out_row * m + m == (out_row + 1) * m) by (nonlinear_arith);
                out_row = out_row + 1;
            }
            i = i + 1;
        }
        assert(out_row == m);
        Ok(ArithmaMatrix { rows: m, cols: m, cells })
    }
}

/// Reading a cell after writing one: the written cell gives the written
/// value, and every other cell keeps its value. Distinct positions never
/// share a place in the cell list.
pub proof fn law_set_then_get<T>(m: ArithmaMatrix<T>, row: int, col: int, value: T, r: int, c: int)
    requires
        m.wf(),
        0 <= row < m.rows,
        0 <= col < m.cols,
        0 <= r < m.rows,
        0 <= c < m.cols,
    ensures
        m.cells@.update(row * m.cols + col, value)[r * m.cols + c] == if r == row && c == col {
            value
        } else {
            m.cell(r, c)
        },
{
    lemma_cell_index(row, col, m.rows as int, m.cols as int);
    lemma_cell_index(r, c, m.rows as int, m.cols as int);
    if r * m.cols + c == row * m.cols + col {
        assert(r == row && c == col) by (nonlinear_arith)
            requires
                r * m.cols + c == row * m.cols + col,
                0 <= c < m.cols,
                0 <= col < m.cols,
                0 <= r,
                0 <= row,
        ;
    }
}

/// The product of cell `(i, k)` of `a` and cell `(k, j)` of `b`.
pub open spec fn cell_product(
    a: ArithmaMatrix<ArithmaExpression>,
    b: ArithmaMatrix<ArithmaExpression>,
    i: int,
    j: int,
    k: int,
) -> ExprModel {
    call2(FunctionModel::Multiply, a.cell(i, k)@, b.cell(k, j)@)
}

/// The first `n` products of row `i` of `a` with column `j` of `b`, summed
/// left to right: zero for none, the first product alone for one, and each
/// further product added to the sum before it.
pub open spec fn row_col_sum(
    a: ArithmaMatrix<ArithmaExpression>,
    b: ArithmaMatrix<ArithmaExpression>,
    i: int,
    j: int,
    n: nat,
) -> ExprModel
    decreases n,
{
    if n == 0 {
        zero_model()
    } else if n == 1 {
        cell_product(a, b, i, j, 0)
    } else {
        call2(
            FunctionModel::Add,
            row_col_sum(a, b, i, j, (n - 1) as nat),
            cell_product(a, b, i, j, n - 1),
        )
    }
}

/// `a op b` cell by cell, `op` being subtraction when `subtract` is set and
/// addition otherwise.
pub open spec fn cellwise(
    a: Seq<ArithmaExpression>,
    b: Seq<ArithmaExpression>,
    k: int,
    subtract: bool,
) -> ExprModel {
    call2(
        if subtract {
            FunctionModel::Subtract
        } else {
            FunctionModel::Add
        },
        a[k]@,
        b[k]@,
    )
}

/// Entry `(i, j)` of a product pairs row `i` of the left matrix with column
/// `j` of the right one: the `k`-th term multiplies the left cell at flat
/// offset `i * cols + k` by the right cell at `k * other_cols + j`, the
/// terms are added left to right, and an empty inner dimension gives zero.
pub proof fn law_product_pairs_rows_with_columns(
    a: ArithmaMatrix<ArithmaExpression>,
    b: ArithmaMatrix<ArithmaExpression>,
    i: int,
    j: int,
    n: nat,
)
    ensures
        n == 0 ==> row_col_sum(a, b, i, j, n) == ExprModel::Number((0u16, seq![0u8], None)),
        n == 1 ==> row_col_sum(a, b, i, j, n) == ExprModel::Function(
            FunctionModel::Multiply,
            seq![a.cells@[i * a.cols]@, b.cells@[j]@],
        ),
        n >= 2 ==> row_col_sum(a, b, i, j, n) == ExprModel::Function(
            FunctionModel::Add,
            seq![
                row_col_sum(a, b, i, j, (n - 1) as nat),
                ExprModel::Function(
                    FunctionModel::Multiply,
                    seq![a.cells@[i * a.cols + (n - 1)]@, b.cells@[(n - 1) * b.cols + j]@],
                ),
            ],
        ),
{
    assert(i * a.cols + 0 == i * a.cols);
    assert(0 * b.cols + j == j);
}

impl ArithmaMatrix<ArithmaExpression> {
    /// Cellwise `self op other`, `op` being subtraction when `subtract` is set
    /// and addition otherwise; shapes must match exactly.
    fn zip_with(&self, other: &Self, subtract: bool) -> (r: Result<Self, MatrixError>)
        requires
            self.wf(),
            other.wf(),
        ensures
            r is Err <==> !(self.rows == other.rows && self.cols == other.cols),
            r matches Err(e) ==> e == (MatrixError::DimensionMismatch {
                left: (self.rows, self.cols),
                right: (other.rows, other.cols),
            }),
            r matches Ok(m) ==> m.rows == self.rows && m.cols == self.cols && m.wf() && forall|
                k: int,
            |
                0 <= k < m.cells@.len() ==> (#[trigger] m.cells@[k])@ == cellwise(
                    self.cells@,
                    other.cells@,
                    k,
                    subtract,
                ),
    {
        if self.rows != other.rows || self.cols != other.cols {
            return Err(
                MatrixError::DimensionMismatch {
                    left: (self.rows, self.cols),
                    right: (other.rows, other.cols),
                },
            );
        }
        let n = self.cells.len();
        let mut cells: Vec<ArithmaExpression> = Vec::new();
        let mut k: usize = 0;
        while k < n
            invariant
                n == self.cells@.len(),
                n == other.cells@.len(),
                k <= n,
                cells@.len() == k,
                forall|q: int|
                    0 <= q < k ==> (#[trigger] cells@[q])@ == cellwise(
                        self.cells@,
                        other.cells@,
                        q,
                        subtract,
                    ),
            decreases n - k,
        {
            let a = copy_expr(&self.cells[k]);
            let b = copy_expr(&other.cells[k]);
            let c = if subtract {
                ArithmaExpression::sub(a, b)
            } else {
                ArithmaExpression::add(a, b)
            };
            cells.push(c);
            k = k + 1;
        }
        Ok(ArithmaMatrix { rows: self.rows, cols: self.cols, cells })
    }

    /// Matrix addition: each cell the sum of the two cells. Shapes must
    /// match exactly.
    pub fn add(&self, other: &Self) -> (r: Result<Self, MatrixError>)
        requires
            self.wf(),
            other.wf(),
        ensures
            r is Err <==> !(self.rows == other.rows && self.cols == other.cols),
            r matches Err(e) ==> e == (MatrixError::DimensionMismatch {
                left: (self.rows, self.cols),
                right: (other.rows, other.cols),
            }),
            r matches Ok(m) ==> m.rows == self.rows && m.cols == self.cols && m.wf() && forall|
                k: int,
            |
                0 <= k < m.cells@.len() ==> (#[trigger] m.cells@[k])@ == call2(
                    FunctionModel::Add,
                    self.cells@[k]@,
                    other.cells@[k]@,
                ),
    {
        self.zip_with(other, false)
    }

    /// Matrix subtraction: each cell the difference of the two cells. Shapes
    /// must match exactly.
    pub fn sub(&self, other: &Self) -> (r: Result<Self, MatrixError>)
        requires
            self.wf(),
            other.wf(),
        ensures
            r is Err <==> !(self.rows == other.rows && self.cols == other.cols),
            r matches Err(e) ==> e == (MatrixError::DimensionMismatch {
                left: (self.rows, self.cols),
                right: (other.rows, other.cols),
            }),
            r matches Ok(m) ==> m.rows == self.rows && m.cols == self.cols && m.wf() && forall|
                k: int,
            |
                0 <= k < m.cells@.len() ==> (#[trigger] m.cells@[k])@ == call2(
                    FunctionModel::Subtract,
                    self.cells@[k]@,
                    other.cells@[k]@,
                ),
    {
        self.zip_with(other, true)
    }

    /// Every cell multiplied by `scalar`, the scalar on the left.
    pub fn scalar_mul(&self, scalar: &ArithmaExpression) -> (m: Self)
        requires
            self.wf(),
        ensures
            m.rows == self.rows,
            m.cols == self.cols,
            m.wf(),
            forall|k: int|
                0 <= k < m.cells@.len() ==> (#[trigger] m.cells@[k])@ == call2(
                    FunctionModel::Multiply,
                    scalar@,
                    self.cells@[k]@,
                ),
    {
        let n = self.cells.len();
        let mut cells: Vec<ArithmaExpression> = Vec::new();
        let mut k: usize = 0;
        while k < n
            invariant
                n == self.cells@.len(),
                k <= n,
                cells@.len() == k,
                forall|q: int|
                    0 <= q < k ==> (#[trigger] cells@[q])@ == call2(
                        FunctionModel::Multiply,
                        scalar@,
                        self.cells@[q]@,
                    ),
            decreases n - k,
        {
            let c = ArithmaExpression::mul(copy_expr(scalar), copy_expr(&self.cells[k]));
            cells.push(c);
            k = k + 1;
        }
        ArithmaMatrix { rows: self.rows, cols: self.cols, cells }
    }

    /// The sum over `k` of the products of row `i` with column `j`.
    fn row_col(&self, other: &Self, i: usize, j: usize) -> (r: ArithmaExpression)
        requires
            self.wf(),
            other.wf(),
            self.cols == other.rows,
            i < self.rows,
            j < other.cols,
        ensures
            r@ == row_col_sum(*self, *other, i as int, j as int, self.cols as nat),
    {
        let n = self.cols;
        let total = self.cells.len();
        let other_total = other.cells.len();
        if n == 0 {
            return ArithmaExpression::zero();
        }
        proof {
            lemma_cell_index(i as int, 0, self.rows as int, n as int);
            lemma_cell_index(0, j as int, n as int, other.cols as int);
        }
        let mut acc = ArithmaExpression::mul(
            copy_expr(&self.cells[i * n]),
            copy_expr(&other.cells[j]),
        );
        let mut k: usize = 1;
        while k < n
            invariant
                self.wf(),
                other.wf(),
                n == self.cols,
                n == other.rows,
                total == self.cells@.len(),
                other_total == other.cells@.len(),
                i < self.rows,
                j < other.cols,
                1 <= k <= n,
                acc@ == row_col_sum(*self, *other, i as int, j as int, k as nat),
            decreases n - k,
        {
            proof {
                lemma_cell_index(i as int, k as int, self.rows as int, n as int);
                lemma_cell_index(k as int, j as int, n as int, other.cols as int);
            }
            let term = ArithmaExpression::mul(
                copy_expr(&self.cells[i * n + k]),
                copy_expr(&other.cells[k * other.cols + j]),
            );
            acc = ArithmaExpression::add(acc, term);
            k = k + 1;
        }
        acc
    }

    /// Matrix product; `self.cols` must equal `other.rows`. Each cell is the
    /// unsimplified sum of products of a row with a column, zero for an inner
    /// dimension of zero.
    pub fn matmul(&self, other: &Self) -> (r: Result<Self, MatrixError>)
        requires
            self.wf(),
            other.wf(),
        ensures
            r is Err <==> self.cols != other.rows,
            r matches Err(e) ==> e == (MatrixError::DimensionMismatch {
                left: (self.rows, self.cols),
                right: (other.rows, other.cols),
            }),
            r matches Ok(m) ==> m.rows == self.rows && m.cols == other.cols && m.wf() && forall|
                i: int,
                j: int,
            |
                0 <= i < m.rows && 0 <= j < m.cols ==> (#[trigger] m.cell(i, j))@ == row_col_sum(
                    *self,
                    *other,
                    i,
                    j,
                    self.cols as nat,
                ),
    {
        if self.cols != other.rows {
            return Err(
                MatrixError::DimensionMismatch {
                    left: (self.rows, self.cols),
                    right: (other.rows, other.cols),
                },
            );
        }
        let rows = self.rows;
        let cols = other.cols;
        let mut cells: Vec<ArithmaExpression> = Vec::new();
        let mut i: usize = 0;
        while i < rows
            invariant
                self.wf(),
                other.wf(),
                self.cols == other.rows,
                rows == self.rows,
                cols == other.cols,
                i <= rows,
                cells@.len() == i * cols,
                forall|a: int, b: int|
                    0 <= a < i && 0 <= b < cols ==> (#[trigger] cells@[a * cols + b])@
                        == row_col_sum(*self, *other, a, b, self.cols as nat),
            decreases rows - i,
        {
            let mut j: usize = 0;
            while j < cols
                invariant
                    self.wf(),
                    other.wf(),
                    self.cols == other.rows,
                    rows == self.rows,
                    cols == other.cols,
                    i < rows,
                    j <= cols,
                    cells@.len() == i * cols + j,
                    forall|a: int, b: int|
                        (0 <= a < i && 0 <= b < cols) || (a == i && 0 <= b < j) ==> (
                        #[trigger] cells@[a * cols + b])@ == row_col_sum(
                            *self,
                            *other,
                            a,
                            b,
                            self.cols as nat,
                        ),
                decreases cols - j,
            {
                let c = self.row_col(other, i, j);
                let ghost before = cells@;
                cells.push(c);
                proof {
                    assert forall|a: int, b: int|
                        (0 <= a < i && 0 <= b < cols) || (a == i && 0 <= b < j + 1) implies (
                        #[trigger] cells@[a * cols + b])@ == row_col_sum(
                            *self,
                            *other,
                            a,
                            b,
                            self.cols as nat,
                        ) by {
                        if a == i && b == j {
                        } else {
                            assert(a * cols + b < i * cols + j) by (nonlinear_arith)
                                requires
                                    (0 <= a < i && 0 <= b < cols) || (a == i && 0 <= b < j),
                            ;
                            assert(0 <= a * cols + b) by (nonlinear_arith)
                                requires
                                    0 <= a,
                                    0 <= b,
                                    0 <= cols,
                            ;
                            assert(cells@[a * cols + b] == before[a * cols + b]);
                        }
                    }
                }
                j = j + 1;
            }
            assert((i + 1) * cols == i * cols + cols) by (nonlinear_arith);
            i = i + 1;
        }
        Ok(ArithmaMatrix { rows, cols, cells })
    }
}

/// `n!`.
pub open spec fn factorial(n: nat) -> nat
    decreases n,
{
    if n == 0 {
        1
    } else {
        n * factorial((n - 1) as nat)
    }
}

proof fn lemma_small_factorials()
    ensures
        factorial(0) == 1,
        factorial(1) == 1,
        factorial(2) == 2,
        factorial(3) == 6,
        factorial(4) == 24,
        factorial(5) == 120,
        factorial(6) == 720,
{
    reveal_with_fuel(factorial, 7);
}

/// `n!`, saturating at `usize::MAX`; used as a loop bound only.
pub fn factorial_bounded(n: usize) -> (f: usize)
    requires
        n <= MAX_DETERMINANT_ORDER,
    ensures
        f == factorial(n as nat),
        f >= 1,
{
    let mut acc: usize = 1;
    let top = if n < MAX_DETERMINANT_ORDER {
        n
    } else {
        MAX_DETERMINANT_ORDER
    };
    let mut k: usize = 1;
    while k <= top
        invariant
            1 <= k <= top + 1,
            top == n,
            n <= MAX_DETERMINANT_ORDER,
            acc == factorial((k - 1) as nat),
            acc <= 720,
        decreases top + 1 - k,
    {
        proof {
            lemma_small_factorials();
            assert(factorial(k as nat) == k * factorial((k - 1) as nat));
            assert(acc * k == factorial(k as nat)) by (nonlinear_arith)
                requires
                    acc == factorial((k - 1) as nat),
                    factorial(k as nat) == k * factorial((k - 1) as nat),
            ;
        }
        acc = match acc.checked_mul(k) {
            Some(product) => product,
            None => usize::MAX,
        };
        k = k + 1;
    }
    proof {
        lemma_small_factorials();
    }
    acc
}

/// How many entries of `s` are smaller than `x`.
pub open spec fn smaller_than(x: usize, s: Seq<usize>) -> nat
    decreases s.len(),
{
    if s.len() == 0 {
        0
    } else {
        (if x > s[0] {
            1nat
        } else {
            0nat
        }) + smaller_than(x, s.skip(1))
    }
}

/// The inversions of `s` from position `i` on: pairs `k < l`, `k >= i`,
/// with `s[k] > s[l]`.
pub open spec fn inversions_from(s: Seq<usize>, i: int) -> nat
    decreases s.len() - i,
{
    if i < 0 || i >= s.len() {
        0
    } else {
        smaller_than(s[i], s.skip(i + 1)) + inversions_from(s, i + 1)
    }
}

/// The number of inversions of `s`: pairs of positions out of order.
pub open spec fn inversions(s: Seq<usize>) -> nat {
    inversions_from(s, 0)
}

proof fn lemma_smaller_than_bound(x: usize, s: Seq<usize>)
    ensures
        smaller_than(x, s) <= s.len(),
    decreases s.len(),
{
    if s.len() > 0 {
        lemma_smaller_than_bound(x, s.skip(1));
    }
}

proof fn lemma_inversions_bound(s: Seq<usize>, i: int)
    requires
        0 <= i <= s.len(),
    ensures
        inversions_from(s, i) <= (s.len() - i) * s.len(),
    decreases s.len() - i,
{
    if i < s.len() {
        lemma_smaller_than_bound(s[i], s.skip(i + 1));
        lemma_inversions_bound(s, i + 1);
        assert((s.len() - i) * s.len() == (s.len() - (i + 1)) * s.len() + s.len()) by (
        nonlinear_arith);
    }
}

/// True when a permutation has odd parity, counted by inversions.
pub fn permutation_sign_is_negative(perm: &[usize]) -> (odd: bool)
    requires
        perm@.len() <= MAX_DETERMINANT_ORDER,
    ensures
        odd == (inversions(perm@) % 2 == 1),
{
    let n = perm.len();
    let ghost s = perm@;
    let mut count: usize = 0;
    let mut i: usize = 0;
    while i < n
        invariant
            n == s.len(),
            s == perm@,
            n <= MAX_DETERMINANT_ORDER,
            i <= n,
            count + inversions_from(s, i as int) == inversions(s),
            count <= i * n,
        decreases n - i,
    {
        let mut j: usize = i + 1;
        let ghost row_total = smaller_than(s[i as int], s.skip(i + 1));
        assert(s.skip(j as int) =~= s.skip(i + 1));
        let ghost start = count;
        assert(i * n <= 36) by (nonlinear_arith)
            requires
                i <= n,
                n <= 6,
        ;
        while j < n
            invariant
                n == s.len(),
                s == perm@,
                n <= MAX_DETERMINANT_ORDER,
                i < n,
                i + 1 <= j <= n,
                count + smaller_than(s[i as int], s.skip(j as int)) == start + row_total,
                start <= i * n,
                i * n <= 36,
                count <= start + (j - i - 1),
            decreases n - j,
        {
            assert(s.skip(j as int).skip(1) =~= s.skip(j + 1));
            if perm[i] > perm[j] {
                count = count + 1;
            }
            j = j + 1;
        }
        assert(s.skip(j as int).len() == 0);
        proof {
            assert(count <= i * n + n) by (nonlinear_arith)
                requires
                    count <= start + (j - i - 1),
                    start <= i * n,
                    j <= n,
            ;
            assert(i * n + n == (i + 1) * n) by (nonlinear_arith);
        }
        i = i + 1;
    }
    count % 2 == 1
}

/// No position is followed by a larger entry: the last arrangement in
/// lexicographic order.
pub open spec fn is_last_arrangement(s: Seq<usize>) -> bool {
    forall|k: int| 0 <= k < s.len() - 1 ==> s[k] >= #[trigger] s[k + 1]
}

/// `a` comes strictly before `b` in lexicographic order; both have the same
/// length.
pub open spec fn lex_before(a: Seq<usize>, b: Seq<usize>) -> bool {
    &&& a.len() == b.len()
    &&& exists|k: int|
        0 <= k < a.len() && a.take(k) == b.take(k) && #[trigger] a[k] < #[trigger] b[k]
}

proof fn lemma_swap_keeps_multiset(m: vstd::multiset::Multiset<usize>, x: usize, y: usize)
    requires
        m.count(x) > 0,
    ensures
        m.insert(y).remove(x).insert(x).remove(y) == m,
{
    broadcast use vstd::multiset::group_multiset_axioms;

    assert(m.insert(y).remove(x).insert(x).remove(y) =~= m);
}

/// Entries never decrease from left to right.
pub open spec fn non_decreasing(s: Seq<usize>) -> bool {
    forall|a: int, b: int| 0 <= a < b < s.len() ==> #[trigger] s[a] <= #[trigger] s[b]
}

/// `t` is an arrangement of the entries of `s` that comes after it, and no
/// arrangement of them lies strictly between the two.
pub open spec fn is_next_arrangement(s: Seq<usize>, t: Seq<usize>) -> bool {
    &&& t.to_multiset() == s.to_multiset()
    &&& lex_before(s, t)
    &&& forall|u: Seq<usize>|
        #![trigger lex_before(s, u), lex_before(u, t)]
        u.to_multiset() == s.to_multiset() && lex_before(s, u) ==> !lex_before(u, t)
}

proof fn lemma_lex_asymmetric(a: Seq<usize>, b: Seq<usize>)
    requires
        lex_before(a, b),
    ensures
        !lex_before(b, a),
{
    let k1 = choose|k: int| 0 <= k < a.len() && a.take(k) == b.take(k) && #[trigger] a[k] < #[trigger] b[k];
    if lex_before(b, a) {
        let k2 = choose|k: int|
            0 <= k < b.len() && b.take(k) == a.take(k) && #[trigger] b[k] < #[trigger] a[k];
        if k1 < k2 {
            assert(b.take(k2)[k1] == a.take(k2)[k1]);
        } else if k2 < k1 {
            assert(a.take(k1)[k2] == b.take(k1)[k2]);
        }
    }
}

proof fn lemma_multiset_split(s: Seq<usize>, k: int)
    requires
        0 <= k <= s.len(),
    ensures
        s.to_multiset() == s.take(k).to_multiset().add(s.skip(k).to_multiset()),
{
    assert(s =~= s.take(k) + s.skip(k));
    vstd::seq_lib::lemma_multiset_commutative(s.take(k), s.skip(k));
}

/// Arrangements of the same entries that agree on a prefix agree, as
/// multisets, on what follows it.
proof fn lemma_same_suffix_multiset(s: Seq<usize>, u: Seq<usize>, k: int)
    requires
        0 <= k <= s.len(),
        u.len() == s.len(),
        u.take(k) == s.take(k),
        u.to_multiset() == s.to_multiset(),
    ensures
        u.skip(k).to_multiset() == s.skip(k).to_multiset(),
{
    broadcast use vstd::multiset::group_multiset_axioms;

    lemma_multiset_split(s, k);
    lemma_multiset_split(u, k);
    let head = s.take(k).to_multiset();
    assert(u.take(k).to_multiset() == head);
    assert forall|x: usize| #[trigger] u.skip(k).to_multiset().count(x) == s.skip(
        k,
    ).to_multiset().count(x) by {
        assert(u.to_multiset().count(x) == head.count(x) + u.skip(k).to_multiset().count(x));
        assert(s.to_multiset().count(x) == head.count(x) + s.skip(k).to_multiset().count(x));
    }
    assert(u.skip(k).to_multiset() =~= s.skip(k).to_multiset());
}

proof fn lemma_member_has_index(s: Seq<usize>, x: usize)
    requires
        s.to_multiset().count(x) > 0,
    ensures
        exists|i: int| 0 <= i < s.len() && s[i] == x,
{
    vstd::seq_lib::to_multiset_contains(s, x);
}

/// A non-decreasing arrangement comes first among the arrangements of its
/// entries.
proof fn lemma_sorted_is_least(a: Seq<usize>, b: Seq<usize>)
    requires
        non_decreasing(a),
        b.len() == a.len(),
        b.to_multiset() == a.to_multiset(),
    ensures
        a == b || lex_before(a, b),
    decreases a.len(),
{
    if a.len() == 0 {
        assert(a =~= b);
    } else {
        vstd::seq_lib::to_multiset_contains(b, b[0]);
        lemma_member_has_index(a, b[0]);
        let m = choose|i: int| 0 <= i < a.len() && a[i] == b[0];
        if m > 0 {
            assert(a[0] <= a[m]);
        }
        if b[0] > a[0] {
            assert(a.take(0) =~= b.take(0));
        } else {
            assert(a.take(1) =~= b.take(1));
            lemma_same_suffix_multiset(a, b, 1);
            let a1 = a.skip(1);
            let b1 = b.skip(1);
            assert(non_decreasing(a1)) by {
                assert forall|x: int, y: int| 0 <= x < y < a1.len() implies #[trigger] a1[x]
                    <= #[trigger] a1[y] by {
                    assert(a[x + 1] <= a[y + 1]);
                }
            }
            lemma_sorted_is_least(a1, b1);
            if a1 == b1 {
                assert(a =~= b) by {
                    assert forall|x: int| 0 <= x < a.len() implies a[x] == b[x] by {
                        if x > 0 {
                            assert(a[x] == a1[x - 1]);
                            assert(b[x] == b1[x - 1]);
                        }
                    }
                }
            } else {
                let k = choose|k: int|
                    0 <= k < a1.len() && a1.take(k) == b1.take(k) && #[trigger] a1[k]
                        < #[trigger] b1[k];
                assert(a.take(k + 1) =~= b.take(k + 1)) by {
                    assert forall|x: int| 0 <= x < k + 1 implies a[x] == b[x] by {
                        if x > 0 {
                            assert(a1.take(k)[x - 1] == b1.take(k)[x - 1]);
                        }
                    }
                }
                assert(a[k + 1] == a1[k] && b[k + 1] == b1[k]);
            }
        }
    }
}

/// The arrangement that swaps the pivot with the smallest larger entry
/// after it, and sorts what follows, is the next one.
proof fn lemma_next_is_least(s: Seq<usize>, t: Seq<usize>, p: int, q: int)
    requires
        0 <= p < q < s.len(),
        t.len() == s.len(),
        s[p] < s[q],
        forall|a: int, b: int| p < a < b < s.len() ==> #[trigger] s[a] >= #[trigger] s[b],
        forall|k: int| q < k < s.len() ==> #[trigger] s[k] <= s[p],
        t.take(p) == s.take(p),
        t[p] == s[q],
        non_decreasing(t.skip(p + 1)),
        t.to_multiset() == s.to_multiset(),
    ensures
        forall|u: Seq<usize>|
            #![trigger lex_before(s, u), lex_before(u, t)]
            u.to_multiset() == s.to_multiset() && lex_before(s, u) ==> !lex_before(u, t),
{
    assert forall|u: Seq<usize>|
        #![trigger lex_before(s, u), lex_before(u, t)]
        u.to_multiset() == s.to_multiset() && lex_before(s, u) implies !lex_before(u, t) by {
        let k = choose|k: int|
            0 <= k < s.len() && s.take(k) == u.take(k) && #[trigger] s[k] < #[trigger] u[k];
        if k < p {
            assert(t.take(k) =~= u.take(k)) by {
                assert forall|x: int| 0 <= x < k implies t[x] == u[x] by {
                    assert(t.take(p)[x] == s.take(p)[x]);
                    assert(s.take(k)[x] == u.take(k)[x]);
                }
            }
            assert(t[k] == s[k]) by {
                assert(t.take(p)[k] == s.take(p)[k]);
                assert(t.take(p)[k] == t[k]);
                assert(s.take(p)[k] == s[k]);
            }
            lemma_lex_asymmetric(t, u);
        } else if k > p {
            lemma_same_suffix_multiset(s, u, k);
            vstd::seq_lib::to_multiset_contains(u.skip(k), u[k]);
            assert(u.skip(k)[0] == u[k]);
            lemma_member_has_index(s.skip(k), u[k]);
            let m = choose|i: int| 0 <= i < s.skip(k).len() && s.skip(k)[i] == u[k];
            if m > 0 {
                assert(s[k] >= s[k + m]);
            }
            assert(false);
        } else {
            lemma_same_suffix_multiset(s, u, p);
            vstd::seq_lib::to_multiset_contains(u.skip(p), u[p]);
            assert(u.skip(p)[0] == u[p]);
            lemma_member_has_index(s.skip(p), u[p]);
            let m = choose|i: int| 0 <= i < s.skip(p).len() && s.skip(p)[i] == u[p];
            assert(s[p + m] == u[p]);
            assert(m > 0);
            if p + m > q {
                assert(s[p + m] <= s[p]);
            }
            if p + m < q {
                assert(s[p + m] >= s[q]);
            }
            assert(u[p] >= t[p]);
            assert(t.take(p) =~= u.take(p)) by {
                assert forall|x: int| 0 <= x < p implies t[x] == u[x] by {
                    assert(t.take(p)[x] == s.take(p)[x]);
                    assert(s.take(p)[x] == u.take(p)[x]);
                }
            }
            if u[p] > t[p] {
                lemma_lex_asymmetric(t, u);
            } else {
                assert(t.take(p + 1) =~= u.take(p + 1)) by {
                    assert forall|x: int| 0 <= x < p + 1 implies t[x] == u[x] by {
                        if x < p {
                            assert(t.take(p)[x] == u.take(p)[x]);
                        }
                    }
                }
                lemma_same_suffix_multiset(t, u, p + 1);
                lemma_sorted_is_least(t.skip(p + 1), u.skip(p + 1));
                if t.skip(p + 1) == u.skip(p + 1) {
                    assert(t =~= u) by {
                        assert forall|x: int| 0 <= x < t.len() implies t[x] == u[x] by {
                            if x > p {
                                assert(t.skip(p + 1)[x - p - 1] == u.skip(p + 1)[x - p - 1]);
                            } else if x < p {
                                assert(t.take(p)[x] == u.take(p)[x]);
                            }
                        }
                    }
                    if lex_before(u, t) {
                        let j = choose|j: int|
                            0 <= j < u.len() && u.take(j) == t.take(j) && #[trigger] u[j]
                                < #[trigger] t[j];
                        assert(false);
                    }
                } else {
                    let t1 = t.skip(p + 1);
                    let u1 = u.skip(p + 1);
                    let j = choose|j: int|
                        0 <= j < t1.len() && t1.take(j) == u1.take(j) && #[trigger] t1[j]
                            < #[trigger] u1[j];
                    assert(t.take(p + 1 + j) =~= u.take(p + 1 + j)) by {
                        assert forall|x: int| 0 <= x < p + 1 + j implies t[x] == u[x] by {
                            if x > p {
                                assert(t1.take(j)[x - p - 1] == u1.take(j)[x - p - 1]);
                            } else if x < p {
                                assert(t.take(p)[x] == u.take(p)[x]);
                            }
                        }
                    }
                    assert(t[p + 1 + j] == t1[j] && u[p + 1 + j] == u1[j]);
                    lemma_lex_asymmetric(t, u);
                }
            }
        }
    }
}

/// Advance `perm` to the next arrangement of its entries in lexicographic
/// order.
///
/// Returns `false`, leaving `perm` as it is, when it is the last one.
/// Iterative, so it costs no stack depth whatever the length.
pub fn next_permutation(perm: &mut Vec<usize>) -> (advanced: bool)
    requires
        old(perm)@.len() <= MAX_DETERMINANT_ORDER,
    ensures
        advanced <==> !is_last_arrangement(old(perm)@),
        !advanced ==> final(perm)@ == old(perm)@,
        advanced ==> is_next_arrangement(old(perm)@, final(perm)@),
{
    let n = perm.len();
    if n < 2 {
        return false;
    }
    let ghost s = perm@;
    // The rightmost ascent.
    let mut i = n - 1;
    while i > 0 && perm[i - 1] >= perm[i]
        invariant
            n == perm@.len(),
            perm@ == s,
            n >= 2,
            i <= n - 1,
            forall|a: int, b: int| i <= a < b < n ==> #[trigger] s[a] >= #[trigger] s[b],
        decreases i,
    {
        proof {
            assert forall|a: int, b: int| i - 1 <= a < b < n implies #[trigger] s[a]
                >= #[trigger] s[b] by {
                if a == i - 1 && b > i {
                    assert(s[i as int] >= s[b]);
                }
            }
        }
        i = i - 1;
    }
    if i == 0 {
        assert(is_last_arrangement(s)) by {
            assert forall|k: int| 0 <= k < s.len() - 1 implies s[k] >= #[trigger] s[k + 1] by {
                assert(s[k] >= s[k + 1]);
            }
        }
        return false;
    }
    // The rightmost entry larger than the pivot.
    let pivot = i - 1;
    let mut j = n - 1;
    while j > pivot && perm[j] <= perm[pivot]
        invariant
            n == perm@.len(),
            perm@ == s,
            1 <= i <= n - 1,
            pivot == i - 1,
            s[pivot as int] < s[i as int],
            i <= j <= n - 1,
            forall|k: int| j < k < n ==> #[trigger] s[k] <= s[pivot as int],
        decreases j,
    {
        j = j - 1;
    }
    assert(!is_last_arrangement(s)) by {
        assert(s[pivot as int] < s[pivot + 1]);
    }
    let a = perm[pivot];
    let b = perm[j];
    perm.set(pivot, b);
    perm.set(j, a);
    let ghost w = perm@;
    proof {
        let t = s.update(pivot as int, b);
        vstd::seq_lib::to_multiset_contains(s, a);
        assert(s.contains(a)) by {
            assert(s[pivot as int] == a);
        }
        vstd::seq_lib::to_multiset_update(s, pivot as int, b);
        vstd::seq_lib::to_multiset_update(t, j as int, a);
        lemma_swap_keeps_multiset(s.to_multiset(), a, b);
        assert(perm@ == t.update(j as int, a));
        assert forall|x: int, y: int| pivot < x < y < n implies #[trigger] w[x] >= #[trigger] w[y] by {
            if x == j {
                assert(s[y] <= s[pivot as int]);
            } else if y == j {
                assert(s[x] >= s[j as int]);
            } else {
                assert(s[x] >= s[y]);
            }
        }
    }
    // Reverse the suffix after the pivot.
    let mut lo = i;
    let mut hi = n - 1;
    while lo < hi
        invariant
            n == perm@.len(),
            w.len() == n,
            i <= lo,
            lo <= hi + 1,
            hi <= n - 1,
            lo + hi == n - 1 + i,
            perm@.to_multiset() == w.to_multiset(),
            forall|k: int| 0 <= k < i ==> perm@[k] == w[k],
            forall|k: int| lo <= k <= hi ==> perm@[k] == w[k],
            forall|k: int| i <= k < lo ==> perm@[k] == w[n - 1 + i - k],
            forall|k: int| hi < k < n ==> perm@[k] == w[n - 1 + i - k],
        decreases hi + 1 - lo,
    {
        let x = perm[lo];
        let y = perm[hi];
        let ghost before = perm@;
        perm.set(lo, y);
        perm.set(hi, x);
        proof {
            let t = before.update(lo as int, y);
            vstd::seq_lib::to_multiset_contains(before, x);
            assert(before.contains(x)) by {
                assert(before[lo as int] == x);
            }
            vstd::seq_lib::to_multiset_update(before, lo as int, y);
            vstd::seq_lib::to_multiset_update(t, hi as int, x);
            lemma_swap_keeps_multiset(before.to_multiset(), x, y);
            assert(perm@ == t.update(hi as int, x));
        }
        lo = lo + 1;
        hi = hi - 1;
    }
    proof {
        let t = perm@;
        assert(forall|k: int| i <= k < n ==> t[k] == w[n - 1 + i - k]);
        assert(t.take(pivot as int) =~= s.take(pivot as int)) by {
            assert forall|k: int| 0 <= k < pivot implies t[k] == s[k] by {
                assert(w[k] == s[k]);
            }
        }
        assert(non_decreasing(t.skip(i as int))) by {
            assert forall|x: int, y: int| 0 <= x < y < t.skip(i as int).len() implies #[trigger] t.skip(
                i as int,
            )[x] <= #[trigger] t.skip(i as int)[y] by {
                assert(t.skip(i as int)[x] == t[i + x]);
                assert(t.skip(i as int)[y] == t[i + y]);
                assert(w[n - 1 - x] <= w[n - 1 - y]);
            }
        }
        assert forall|k: int| j < k < n implies #[trigger] s[k] <= s[pivot as int] by {}
        assert(w[pivot as int] == b);
        assert(t[pivot as int] == w[pivot as int]);
        lemma_next_is_least(s, t, pivot as int, j as int);
        assert(s.take(pivot as int) =~= t.take(pivot as int));
        assert(s[pivot as int] < t[pivot as int]);
    }
    true
}

} // verus!
