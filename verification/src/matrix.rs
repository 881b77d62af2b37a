//! Dense rectangular matrices in row-major storage, generic in the scalar.
//!
//! The transform arithmetic of the pipeline (determinants, inverses,
//! products) is IEEE-754 work that the verifier does not reason about; the
//! layout logic underneath it is scalar-independent and is verified here:
//! the `values.len() == rows * cols` invariant, row-major element access and
//! update, transposition, submatrix removal with relative order preserved,
//! and the identity pattern.

use vstd::arithmetic::div_mod::lemma_fundamental_div_mod_converse;
use vstd::prelude::*;

verus! {

/// Row-major position `r * cols + c` stays inside a `rows * cols` store.
proof fn lemma_row_major_in_range(rows: int, cols: int, r: int, c: int)
    by (nonlinear_arith)
    requires
        0 <= r < rows,
        0 <= c < cols,
    ensures
        0 <= r * cols + c < rows * cols,
{
}

/// Distinct cells of one matrix occupy distinct row-major positions.
proof fn lemma_row_major_injective(cols: int, r1: int, c1: int, r2: int, c2: int)
    by (nonlinear_arith)
    requires
        0 <= c1 < cols,
        0 <= c2 < cols,
        r1 * cols + c1 == r2 * cols + c2,
    ensures
        r1 == r2 && c1 == c2,
{
}

/// The source index that position `i` refers to once the row or column at
/// `removed` is taken out: positions before `removed` are unchanged, later
/// ones shift up by one.
pub open spec fn skip_index(i: int, removed: int) -> int {
    if i < removed {
        i
    } else {
        i + 1
    }
}

/// A dense matrix of scalars, stored row-major in one flat vector.
///
/// Invariant ([`Matrix::wf`]): the store holds exactly `rows * cols`
/// scalars. Every constructor establishes it and every method preserves it.
#[derive(Clone, Debug)]
pub struct Matrix<T> {
    rows: usize,
    cols: usize,
    values: Vec<T>,
}

impl<T: Copy> Matrix<T> {
    /// Number of rows.
    pub closed spec fn spec_rows(&self) -> usize {
        self.rows
    }

    /// Number of columns.
    pub closed spec fn spec_cols(&self) -> usize {
        self.cols
    }

    /// The scalar in row `r`, column `c`.
    pub closed spec fn entry(&self, r: int, c: int) -> T {
        self.values@[r * self.spec_cols() + c]
    }

    /// The backing store holds exactly `rows * cols` scalars.
    pub closed spec fn wf(&self) -> bool {
        self.values@.len() == self.spec_rows() * self.spec_cols()
    }

    #[verifier::when_used_as_spec(spec_rows)]
    pub fn rows(&self) -> (n: usize)
        ensures
            n == self.spec_rows(),
    {
        self.rows
    }

    #[verifier::when_used_as_spec(spec_cols)]
    pub fn cols(&self) -> (n: usize)
        ensures
            n == self.spec_cols(),
    {
        self.cols
    }

    /// A `rows` by `cols` matrix with every cell set to `fill`.
    pub fn new(rows: usize, cols: usize, fill: T) -> (m: Matrix<T>)
        requires
            rows * cols <= usize::MAX,
        ensures
            m.wf(),
            m.rows() == rows,
            m.cols() == cols,
            forall|r: int, c: int|
                0 <= r < rows && 0 <= c < cols ==> m.entry(r, c) == fill,
    {
        let total: usize = rows * cols;
        let mut values: Vec<T> = Vec::new();
        let mut i: usize = 0;
        while i < total
            invariant
                i <= total,
                values@.len() == i,
                forall|k: int| 0 <= k < i ==> values@[k] == fill,
            decreases total - i,
        {
            values.push(fill);
            i = i + 1;
        }
        let m = Matrix { rows, cols, values };
        proof {
            assert forall|r: int, c: int|
                0 <= r < rows && 0 <= c < cols implies m.entry(r, c) == fill by {
                lemma_row_major_in_range(rows as int, cols as int, r, c);
            }
        }
        m
    }

    /// A matrix built from a flat row-major sequence. The row count must
    /// divide the length of the sequence; the column count is derived from
    /// it, and the cells read back exactly the scalars handed in.
    pub fn new_with_values(rows: usize, values: Vec<T>) -> (m: Matrix<T>)
        requires
            1 <= rows,
            values.len() % rows == 0,
        ensures
            m.wf(),
            m.rows() == rows,
            m.cols() == values.len() / rows,
            forall|r: int, c: int|
                0 <= r < rows && 0 <= c < values.len() / rows
                    ==> #[trigger] m.entry(r, c) == values@[r * (values.len() / rows) + c],
    {
        let cols: usize = values.len() / rows;
        proof {
            assert(values.len() == rows * cols) by (nonlinear_arith)
                requires
                    1 <= rows,
                    values.len() as int % (rows as int) == 0,
                    cols as int == values.len() as int / (rows as int),
            ;
        }
        Matrix { rows, cols, values }
    }

    /// The `n` by `n` matrix with `one` on the diagonal and `zero` elsewhere.
    pub fn identity(n: usize, zero: T, one: T) -> (m: Matrix<T>)
        requires
            n * n <= usize::MAX,
        ensures
            m.wf(),
            m.rows() == n,
            m.cols() == n,
            forall|i: int| 0 <= i < n ==> m.entry(i, i) == one,
            forall|i: int, j: int|
                0 <= i < n && 0 <= j < n && i != j ==> m.entry(i, j) == zero,
    {
        let mut m = Matrix::new(n, n, zero);
        let mut i: usize = 0;
        while i < n
            invariant
                i <= n,
                m.wf(),
                m.rows() == n,
                m.cols() == n,
                forall|k: int| 0 <= k < i ==> m.entry(k, k) == one,
                forall|r: int, c: int|
                    0 <= r < n && 0 <= c < n && r != c ==> m.entry(r, c) == zero,
                forall|k: int| i <= k < n ==> m.entry(k, k) == zero,
            decreases n - i,
        {
            m.write_value(i, i, one);
            i = i + 1;
        }
        m
    }

    /// The scalar at row-major offset `row * cols + col`.
    pub fn value_at(&self, row: usize, col: usize) -> (v: T)
        requires
            self.wf(),
            row < self.rows(),
            col < self.cols(),
        ensures
            v == self.entry(row as int, col as int),
    {
        proof {
            assert(self.values.len() <= usize::MAX);
            lemma_row_major_in_range(
                self.spec_rows() as int,
                self.spec_cols() as int,
                row as int,
                col as int,
            );
        }
        let idx: usize = row * self.cols + col;
        self.values[idx]
    }

    /// Overwrite the cell at `(row, col)`, leaving dimensions and every
    /// other cell unchanged.
    pub fn write_value(&mut self, row: usize, col: usize, v: T)
        requires
            old(self).wf(),
            row < old(self).rows(),
            col < old(self).cols(),
        ensures
            final(self).wf(),
            final(self).rows() == old(self).rows(),
            final(self).cols() == old(self).cols(),
            final(self).entry(row as int, col as int) == v,
            forall|r: int, c: int|
                0 <= r < old(self).rows() && 0 <= c < old(self).cols() && (r != row || c != col)
                    ==> final(self).entry(r, c) == old(self).entry(r, c),
    {
        proof {
            assert(self.values.len() <= usize::MAX);
            lemma_row_major_in_range(
                self.spec_rows() as int,
                self.spec_cols() as int,
                row as int,
                col as int,
            );
        }
        let idx: usize = row * self.cols + col;
        self.values.set(idx, v);
        proof {
            assert forall|r: int, c: int|
                0 <= r < old(self).spec_rows() && 0 <= c < old(self).spec_cols() && (r != row || c
                    != col) implies self.entry(r, c) == old(self).entry(r, c) by {
                let cols = self.spec_cols() as int;
                lemma_row_major_in_range(self.spec_rows() as int, cols, r, c);
                if r * cols + c == idx {
                    lemma_row_major_injective(cols, r, c, row as int, col as int);
                }
            }
        }
    }

    /// A new matrix with rows and columns swapped: cell `(c, r)` of the
    /// result holds cell `(r, c)` of `self`.
    pub fn transpose(&self) -> (t: Matrix<T>)
        requires
            self.wf(),
        ensures
            t.wf(),
            t.rows() == self.cols(),
            t.cols() == self.rows(),
            forall|r: int, c: int|
                0 <= r < self.rows() && 0 <= c < self.cols()
                    ==> #[trigger] t.entry(c, r) == self.entry(r, c),
    {
        let ghost nr = self.spec_rows() as int;
        let mut values: Vec<T> = Vec::new();
        let mut col: usize = 0;
        while col < self.cols
            invariant
                self.wf(),
                col <= self.spec_cols(),
                values@.len() == col * nr,
                nr == self.spec_rows() as int,
                forall|k: int|
                    0 <= k < values@.len() ==> #[trigger] values@[k] == self.entry(k % nr, k / nr),
            decreases self.spec_cols() - col,
        {
            let mut row: usize = 0;
            while row < self.rows
                invariant
                    self.wf(),
                    col < self.spec_cols(),
                    row <= self.spec_rows(),
                    values@.len() == col * nr + row,
                    nr == self.spec_rows() as int,
                    forall|k: int|
                        0 <= k < values@.len() ==> #[trigger] values@[k] == self.entry(
                            k % nr,
                            k / nr,
                        ),
                decreases self.spec_rows() - row,
            {
                let ghost prior = values@;
                values.push(self.value_at(row, col));
                proof {
                    lemma_fundamental_div_mod_converse(
                        col as int * nr + row as int,
                        nr,
                        col as int,
                        row as int,
                    );
                    assert forall|k: int|
                        0 <= k < values@.len() implies #[trigger] values@[k] == self.entry(
                        k % nr,
                        k / nr,
                    ) by {
                        if k < prior.len() {
                            assert(values@[k] == prior[k]);
                        }
                    }
                }
                row = row + 1;
            }
            proof {
                assert((col + 1) * nr == col * nr + nr) by (nonlinear_arith);
            }
            col = col + 1;
        }
        proof {
            assert(self.spec_cols() * self.spec_rows() == self.spec_rows() * self.spec_cols())
                by (nonlinear_arith);
        }
        let t = Matrix { rows: self.cols, cols: self.rows, values };
        proof {
            assert forall|r: int, c: int|
                0 <= r < self.spec_rows() && 0 <= c < self.spec_cols() implies #[trigger] t.entry(
                c,
                r,
            ) == self.entry(r, c) by {
                lemma_row_major_in_range(self.spec_cols() as int, nr, c, r);
                lemma_fundamental_div_mod_converse(c * nr + r, nr, c, r);
                assert(t.entry(c, r) == t.values@[c * nr + r]);
            }
        }
        t
    }

    /// The matrix with row `rrow` and column `rcol` removed; the remaining
    /// cells keep their relative order, so cell `(r, c)` of the result is
    /// cell `(skip_index(r, rrow), skip_index(c, rcol))` of `self`.
    pub fn submatrix(&self, rrow: usize, rcol: usize) -> (s: Matrix<T>)
        requires
            self.wf(),
            2 <= self.rows(),
            rrow < self.rows(),
            rcol < self.cols(),
        ensures
            s.wf(),
            s.rows() == self.rows() - 1,
            s.cols() == self.cols() - 1,
            forall|r: int, c: int|
                0 <= r < self.rows() - 1 && 0 <= c < self.cols() - 1
                    ==> #[trigger] s.entry(r, c) == self.entry(
                    skip_index(r, rrow as int),
                    skip_index(c, rcol as int),
                ),
    {
        let new_cols: usize = self.cols - 1;
        let ghost nc = new_cols as int;
        let mut values: Vec<T> = Vec::new();
        let mut row: usize = 0;
        let mut kept_rows: usize = 0;
        while row < self.rows
            invariant
                self.wf(),
                rrow < self.spec_rows(),
                rcol < self.spec_cols(),
                nc == self.spec_cols() - 1,
                new_cols == nc,
                row <= self.spec_rows(),
                kept_rows == (if row <= rrow {
                    row as int
                } else {
                    row - 1
                }),
                values@.len() == kept_rows * nc,
                forall|k: int|
                    0 <= k < values@.len() ==> #[trigger] values@[k] == self.entry(
                        skip_index(k / nc, rrow as int),
                        skip_index(k % nc, rcol as int),
                    ),
            decreases self.spec_rows() - row,
        {
            if row != rrow {
                let mut col: usize = 0;
                let mut kept_cols: usize = 0;
                while col < self.cols
                    invariant
                        self.wf(),
                        rrow < self.spec_rows(),
                        rcol < self.spec_cols(),
                        nc == self.spec_cols() - 1,
                        new_cols == nc,
                        row < self.spec_rows(),
                        row != rrow,
                        kept_rows == (if row <= rrow {
                            row as int
                        } else {
                            row - 1
                        }),
                        col <= self.spec_cols(),
                        kept_cols == (if col <= rcol {
                            col as int
                        } else {
                            col - 1
                        }),
                        values@.len() == kept_rows * nc + kept_cols,
                        forall|k: int|
                            0 <= k < values@.len() ==> #[trigger] values@[k] == self.entry(
                                skip_index(k / nc, rrow as int),
                                skip_index(k % nc, rcol as int),
                            ),
                    decreases self.spec_cols() - col,
                {
                    if col != rcol {
                        let ghost prior = values@;
                        values.push(self.value_at(row, col));
                        proof {
                            lemma_fundamental_div_mod_converse(
                                kept_rows as int * nc + kept_cols as int,
                                nc,
                                kept_rows as int,
                                kept_cols as int,
                            );
                            assert forall|k: int|
                                0 <= k < values@.len() implies #[trigger] values@[k] == self.entry(
                                skip_index(k / nc, rrow as int),
                                skip_index(k % nc, rcol as int),
                            ) by {
                                if k < prior.len() {
                                    assert(values@[k] == prior[k]);
                                }
                            }
                        }
                        kept_cols = kept_cols + 1;
                    }
                    col = col + 1;
                }
                proof {
                    assert((kept_rows + 1) * nc == kept_rows * nc + nc) by (nonlinear_arith);
                }
                kept_rows = kept_rows + 1;
            }
            row = row + 1;
        }
        let s = Matrix { rows: self.rows - 1, cols: new_cols, values };
        proof {
            assert forall|r: int, c: int|
                0 <= r < self.spec_rows() - 1 && 0 <= c < self.spec_cols() - 1
                    implies #[trigger] s.entry(r, c) == self.entry(
                skip_index(r, rrow as int),
                skip_index(c, rcol as int),
            ) by {
                lemma_row_major_in_range(self.spec_rows() as int - 1, nc, r, c);
                lemma_fundamental_div_mod_converse(r * nc + c, nc, r, c);
                assert(s.entry(r, c) == s.values@[r * nc + c]);
            }
        }
        s
    }
}

} // verus!
