//! Dense matrices in row-major storage.
use crate::error::Error;
use crate::scalar::Scalar;
use crate::scalar::{
    is_dot, is_product_added, is_scaled, is_sum, is_term_added, is_zero, lemma_dot_extend, scale,
};
use vstd::prelude::*;

verus! {

/// A matrix of `rows` by `cols` scalars, stored row after row.
pub struct Matrix<T> {
    rows: usize,
    cols: usize,
    data: Vec<T>,
}

impl<T> View for Matrix<T> {
    type V = Seq<Seq<T>>;

    /// The matrix as a sequence of rows.
    closed spec fn view(&self) -> Seq<Seq<T>> {
        Seq::new(
            self.rows as nat,
            |i: int| Seq::new(self.cols as nat, |j: int| self.data@[i * self.cols + j]),
        )
    }
}

/// Column `j` of a sequence of rows.
pub open spec fn column<T>(m: Seq<Seq<T>>, j: int) -> Seq<T> {
    Seq::new(m.len(), |k: int| m[k][j])
}

/// Row `i` of `rows` rows starts at `i * cols` and ends where the next one
/// starts, inside the storage.
proof fn lemma_row_position(rows: int, cols: int, i: int)
    requires
        0 <= i < rows,
        0 <= cols,
    ensures
        0 <= i * cols,
        (i + 1) * cols == i * cols + cols,
        (i + 1) * cols <= rows * cols,
{
    assert(0 <= i * cols) by (nonlinear_arith)
        requires
            0 <= i,
            0 <= cols,
    ;
    assert((i + 1) * cols == i * cols + cols) by (nonlinear_arith);
    assert((i + 1) * cols <= rows * cols) by (nonlinear_arith)
        requires
            i + 1 <= rows,
            0 <= cols,
    ;
}

/// The position of cell `(i, j)` lies inside the storage.
proof fn lemma_cell_position(rows: int, cols: int, i: int, j: int)
    requires
        0 <= i < rows,
        0 <= j < cols,
    ensures
        0 <= i * cols <= i * cols + j < rows * cols,
{
    lemma_row_position(rows, cols, i);
}

impl<T: Scalar> Matrix<T> {
    /// The storage holds exactly `rows * cols` cells.
    pub closed spec fn inv(&self) -> bool {
        self.data.len() == self.rows * self.cols
    }

    /// The matrix is valid: every row of its view has `cols()` cells.
    pub open spec fn wf(&self) -> bool {
        &&& self.inv()
        &&& self@.len() == self.rows()
        &&& forall|i: int| 0 <= i < self@.len() ==> (#[trigger] self@[i]).len() == self.cols()
    }

    /// The number of rows.
    pub closed spec fn spec_rows(&self) -> usize {
        self.rows
    }

    /// The number of columns.
    pub closed spec fn spec_cols(&self) -> usize {
        self.cols
    }

    /// The number of rows.
    #[verifier::when_used_as_spec(spec_rows)]
    pub fn rows(&self) -> (n: usize)
        ensures
            n == self.rows(),
    {
        self.rows
    }

    /// The number of columns.
    #[verifier::when_used_as_spec(spec_cols)]
    pub fn cols(&self) -> (n: usize)
        ensures
            n == self.cols(),
    {
        self.cols
    }

    /// The matrix of the given shape whose cells are what `f` returns for
    /// their row and column, called row after row.
    fn build<F: Fn(usize, usize) -> T>(rows: usize, cols: usize, f: F) -> (m: Matrix<T>)
        requires
            forall|i: usize, j: usize| i < rows && j < cols ==> call_requires(f, (i, j)),
        ensures
            m.wf(),
            m.rows() == rows,
            m.cols() == cols,
            forall|i: int, j: int|
                0 <= i < rows && 0 <= j < cols ==> call_ensures(
                    f,
                    (i as usize, j as usize),
                    #[trigger] m@[i][j],
                ),
    {
        let mut data: Vec<T> = Vec::new();
        let mut i: usize = 0;
        while i < rows
            invariant
                forall|r: usize, c: usize| r < rows && c < cols ==> call_requires(f, (r, c)),
                i <= rows,
                data@.len() == i * cols,
                forall|r: int, c: int|
                    0 <= r < i && 0 <= c < cols ==> call_ensures(
                        f,
                        (r as usize, c as usize),
                        #[trigger] cell(data@, cols as int, r, c),
                    ),
            decreases rows - i,
        {
            let mut j: usize = 0;
            while j < cols
                invariant
                    forall|r: usize, c: usize| r < rows && c < cols ==> call_requires(f, (r, c)),
                    i < rows,
                    j <= cols,
                    data@.len() == i * cols + j,
                    forall|r: int, c: int|
                        0 <= r < i && 0 <= c < cols ==> call_ensures(
                            f,
                            (r as usize, c as usize),
                            #[trigger] cell(data@, cols as int, r, c),
                        ),
                    forall|c: int|
                        0 <= c < j ==> call_ensures(
                            f,
                            (i, c as usize),
                            #[trigger] cell(data@, cols as int, i as int, c),
                        ),
                decreases cols - j,
            {
                let v = f(i, j);
                let ghost before = data@;
                data.push(v);
                proof {
                    assert forall|r: int, c: int| 0 <= r < i && 0 <= c < cols implies call_ensures(
                        f,
                        (r as usize, c as usize),
                        #[trigger] cell(data@, cols as int, r, c),
                    ) by {
                        lemma_cell_position(i as int, cols as int, r, c);
                        assert(cell(data@, cols as int, r, c) == cell(before, cols as int, r, c));
                    }
                    assert forall|c: int| 0 <= c < j + 1 implies call_ensures(
                        f,
                        (i, c as usize),
                        #[trigger] cell(data@, cols as int, i as int, c),
                    ) by {
                        if c < j {
                            assert(cell(data@, cols as int, i as int, c) == cell(
                                before,
                                cols as int,
                                i as int,
                                c,
                            ));
                        }
                    }
                }
                j = j + 1;
            }
            proof {
                lemma_row_position(rows as int, cols as int, i as int);
            }
            i = i + 1;
        }
        let m = Matrix { rows, cols, data };
        proof {
            assert forall|i: int, j: int| 0 <= i < rows && 0 <= j < cols implies call_ensures(
                f,
                (i as usize, j as usize),
                #[trigger] m@[i][j],
            ) by {
                lemma_cell_position(rows as int, cols as int, i, j);
                assert(m@[i][j] == cell(m.data@, cols as int, i, j));
            }
        }
        m
    }

    /// A matrix of the given shape with every cell zero.
    pub fn new(rows: usize, cols: usize) -> (m: Matrix<T>)
        ensures
            m.wf(),
            m.rows() == rows,
            m.cols() == cols,
            forall|i: int, j: int| 0 <= i < rows && 0 <= j < cols ==> is_zero(#[trigger] m@[i][j]),
    {
        let z = T::zero();
        let each = |i: usize, j: usize| -> (v: T)
            ensures
                v == z,
            {
                z
            };
        Self::build(rows, cols, each)
    }

    /// The matrix whose rows are the given ones, if they all have one length.
    ///
    /// The number of columns is the length of the first row, and zero where
    /// there is no row.
    pub fn from_rows(rows: &Vec<Vec<T>>) -> (r: Result<Matrix<T>, Error>)
        ensures
            r is Ok <==> (forall|i: int|
                0 <= i < rows@.len() ==> (#[trigger] rows@[i])@.len() == rows@[0]@.len()),
            r matches Err(e) ==> e == Error::DimensionMismatch,
            r matches Ok(m) ==> {
                &&& m.wf()
                &&& m.rows() == rows@.len()
                &&& m.cols() == (if rows@.len() == 0 {
                    0
                } else {
                    rows@[0]@.len()
                })
                &&& forall|i: int| 0 <= i < rows@.len() ==> #[trigger] m@[i] == rows@[i]@
            },
    {
        let n = rows.len();
        let cols: usize = if n == 0 {
            0
        } else {
            rows[0].len()
        };
        let mut data: Vec<T> = Vec::new();
        let mut i: usize = 0;
        while i < n
            invariant
                i <= n,
                n == rows@.len(),
                n > 0 ==> cols == rows@[0]@.len(),
                data@.len() == i * cols,
                forall|r: int| 0 <= r < i ==> (#[trigger] rows@[r])@.len() == cols,
                forall|r: int, c: int|
                    0 <= r < i && 0 <= c < cols ==> data@[r * cols + c] == (
                    #[trigger] rows@[r]@[c]),
            decreases n - i,
        {
            let row = &rows[i];
            if row.len() != cols {
                return Err(Error::DimensionMismatch);
            }
            let mut j: usize = 0;
            while j < cols
                invariant
                    i < n,
                    j <= cols,
                    row@ == rows@[i as int]@,
                    row@.len() == cols,
                    data@.len() == i * cols + j,
                    forall|r: int, c: int|
                        0 <= r < i && 0 <= c < cols ==> data@[r * cols + c] == (
                        #[trigger] rows@[r]@[c]),
                    forall|c: int| 0 <= c < j ==> data@[i * cols + c] == (#[trigger] row@[c]),
                decreases cols - j,
            {
                let ghost before = data@;
                data.push(row[j]);
                proof {
                    assert forall|r: int, c: int| 0 <= r < i && 0 <= c < cols implies data@[r * cols
                        + c] == (#[trigger] rows@[r]@[c]) by {
                        lemma_cell_position(i as int, cols as int, r, c);
                        assert(before[r * cols + c] == rows@[r]@[c]);
                    }
                    assert forall|c: int| 0 <= c < j + 1 implies data@[i * cols + c] == (
                    #[trigger] row@[c]) by {
                        if c < j {
                            assert(before[i * cols + c] == row@[c]);
                        }
                    }
                }
                j = j + 1;
            }
            proof {
                lemma_row_position(n as int, cols as int, i as int);
                assert forall|r: int, c: int| 0 <= r < i + 1 && 0 <= c < cols implies data@[r * cols
                    + c] == (#[trigger] rows@[r]@[c]) by {
                    if r == i {
                        assert(data@[i * cols + c] == row@[c]);
                    }
                }
            }
            i = i + 1;
        }
        let m = Matrix { rows: n, cols, data };
        proof {
            assert forall|i: int| 0 <= i < rows@.len() implies #[trigger] m@[i] == rows@[i]@ by {
                assert forall|j: int| 0 <= j < cols implies m@[i][j] == rows@[i]@[j] by {
                    lemma_cell_position(n as int, cols as int, i, j);
                }
                assert(m@[i] =~= rows@[i]@);
            }
        }
        Ok(m)
    }

    /// The cell in row `i` and column `j`.
    pub fn get(&self, i: usize, j: usize) -> (v: T)
        requires
            self.wf(),
            i < self.rows(),
            j < self.cols(),
        ensures
            v == self@[i as int][j as int],
    {
        proof {
            lemma_cell_position(self.rows as int, self.cols as int, i as int, j as int);
        }
        self.data[i * self.cols + j]
    }

    /// Replaces the cell in row `i` and column `j` by `v`.
    pub fn set(&mut self, i: usize, j: usize, v: T)
        requires
            old(self).wf(),
            i < old(self).rows(),
            j < old(self).cols(),
        ensures
            final(self).wf(),
            final(self).rows() == old(self).rows(),
            final(self).cols() == old(self).cols(),
            final(self)@ == old(self)@.update(i as int, old(self)@[i as int].update(j as int, v)),
    {
        proof {
            lemma_cell_position(self.rows as int, self.cols as int, i as int, j as int);
        }
        self.data.set(i * self.cols + j, v);
        proof {
            let goal = old(self)@.update(i as int, old(self)@[i as int].update(j as int, v));
            assert forall|r: int| 0 <= r < self.rows implies #[trigger] self@[r] =~= goal[r] by {
                assert forall|c: int| 0 <= c < self.cols implies self@[r][c] == goal[r][c] by {
                    lemma_cell_position(self.rows as int, self.cols as int, r, c);
                    lemma_cell_position(self.rows as int, self.cols as int, i as int, j as int);
                    if r < i {
                        lemma_cell_position(i as int, self.cols as int, r, c);
                    } else if r > i {
                        lemma_cell_position(r as int, self.cols as int, i as int, j as int);
                    }
                }
            }
            assert(self@ =~= goal);
        }
    }

    /// The dot product of row `i` of `self` and column `j` of `other`.
    pub fn dot_row_column(&self, i: usize, other: &Matrix<T>, j: usize) -> (r: T)
        requires
            self.wf(),
            other.wf(),
            self.cols() == other.rows(),
            i < self.rows(),
            j < other.cols(),
        ensures
            is_dot(self@[i as int], column(other@, j as int), r),
    {
        let n = self.cols;
        let ghost a = self@[i as int];
        let ghost b = column(other@, j as int);
        let mut acc = T::zero();
        let mut k: usize = 0;
        proof {
            assert(a.take(0).len() == 0);
        }
        while k < n
            invariant
                self.wf(),
                other.wf(),
                n == self.cols(),
                n == other.rows(),
                i < self.rows(),
                j < other.cols(),
                k <= n,
                a == self@[i as int],
                b == column(other@, j as int),
                a.len() == n,
                b.len() == n,
                is_dot(a.take(k as int), b.take(k as int), acc),
            decreases n - k,
        {
            let m = self.get(i, k).times(other.get(k, j));
            let next = acc.plus(m);
            proof {
                lemma_dot_extend(a, b, k as int, acc, m, next);
            }
            acc = next;
            k = k + 1;
        }
        proof {
            assert(a.take(n as int) =~= a);
            assert(b.take(n as int) =~= b);
        }
        acc
    }

    /// The dot product of row `i` of `self` and row `j` of `other`.
    pub fn dot_rows(&self, i: usize, other: &Matrix<T>, j: usize) -> (r: T)
        requires
            self.wf(),
            other.wf(),
            self.cols() == other.cols(),
            i < self.rows(),
            j < other.rows(),
        ensures
            is_dot(self@[i as int], other@[j as int], r),
    {
        let n = self.cols;
        let ghost a = self@[i as int];
        let ghost b = other@[j as int];
        let mut acc = T::zero();
        let mut k: usize = 0;
        proof {
            assert(a.take(0).len() == 0);
        }
        while k < n
            invariant
                self.wf(),
                other.wf(),
                n == self.cols(),
                n == other.cols(),
                i < self.rows(),
                j < other.rows(),
                k <= n,
                a == self@[i as int],
                b == other@[j as int],
                a.len() == n,
                b.len() == n,
                is_dot(a.take(k as int), b.take(k as int), acc),
            decreases n - k,
        {
            let m = self.get(i, k).times(other.get(j, k));
            let next = acc.plus(m);
            proof {
                lemma_dot_extend(a, b, k as int, acc, m, next);
            }
            acc = next;
            k = k + 1;
        }
        proof {
            assert(a.take(n as int) =~= a);
            assert(b.take(n as int) =~= b);
        }
        acc
    }

    /// The matrix product of `self` and `other`.
    ///
    /// Each cell is the dot product of a row of `self` and a column of
    /// `other`. The product exists exactly where `self` has as many columns
    /// as `other` has rows.
    pub fn multiply(&self, other: &Matrix<T>) -> (r: Result<Matrix<T>, Error>)
        requires
            self.wf(),
            other.wf(),
        ensures
            r is Err <==> self.cols() != other.rows(),
            r matches Err(e) ==> e == Error::DimensionMismatch,
            r matches Ok(c) ==> {
                &&& c.wf()
                &&& c.rows() == self.rows()
                &&& c.cols() == other.cols()
                &&& forall|i: int, j: int|
                    0 <= i < self.rows() && 0 <= j < other.cols() ==> is_dot(
                        self@[i],
                        column(other@, j),
                        #[trigger] c@[i][j],
                    )
            },
    {
        if self.cols != other.rows {
            return Err(Error::DimensionMismatch);
        }
        let ghost rows = self.rows;
        let ghost cols = other.cols;
        let each = |i: usize, j: usize| -> (v: T)
            requires
                i < rows,
                j < cols,
            ensures
                is_dot(row_of(self@, i), column_of(other@, j), v),
            {
                self.dot_row_column(i, other, j)
            };
        Ok(Self::build(self.rows, other.cols, each))
    }

    /// The matrix product of `self` and the transpose of `other`.
    ///
    /// Each cell is the dot product of a row of `self` and a row of `other`.
    /// The product exists exactly where both have the same number of
    /// columns.
    pub fn multiply_transposed(&self, other: &Matrix<T>) -> (r: Result<Matrix<T>, Error>)
        requires
            self.wf(),
            other.wf(),
        ensures
            r is Err <==> self.cols() != other.cols(),
            r matches Err(e) ==> e == Error::DimensionMismatch,
            r matches Ok(c) ==> {
                &&& c.wf()
                &&& c.rows() == self.rows()
                &&& c.cols() == other.rows()
                &&& forall|i: int, j: int|
                    0 <= i < self.rows() && 0 <= j < other.rows() ==> is_dot(
                        self@[i],
                        other@[j],
                        #[trigger] c@[i][j],
                    )
            },
    {
        if self.cols != other.cols {
            return Err(Error::DimensionMismatch);
        }
        let ghost rows = self.rows;
        let ghost cols = other.rows;
        let each = |i: usize, j: usize| -> (v: T)
            requires
                i < rows,
                j < cols,
            ensures
                is_dot(row_of(self@, i), row_of(other@, j), v),
            {
                self.dot_rows(i, other, j)
            };
        Ok(Self::build(self.rows, other.rows, each))
    }

    /// Replaces row `i` by a copy of row `k` of `source`.
    ///
    /// This is refused, and `self` left as it was, unless `source` has as
    /// many columns as `self`.
    pub fn copy_row(&mut self, i: usize, source: &Matrix<T>, k: usize) -> (r: Result<(), Error>)
        requires
            old(self).wf(),
            source.wf(),
            i < old(self).rows(),
            k < source.rows(),
        ensures
            final(self).wf(),
            final(self).rows() == old(self).rows(),
            final(self).cols() == old(self).cols(),
            r is Err <==> source.cols() != old(self).cols(),
            r matches Err(e) ==> e == Error::DimensionMismatch && final(self)@ == old(self)@,
            r is Ok ==> final(self)@ == old(self)@.update(i as int, source@[k as int]),
    {
        if source.cols != self.cols {
            return Err(Error::DimensionMismatch);
        }
        let cols = self.cols;
        let mut j: usize = 0;
        while j < cols
            invariant
                self.wf(),
                source.wf(),
                self.rows() == old(self).rows(),
                self.cols() == cols,
                source.cols() == cols,
                i < self.rows(),
                k < source.rows(),
                j <= cols,
                self@.len() == old(self)@.len(),
                forall|r: int| 0 <= r < self@.len() && r != i ==> self@[r] == old(self)@[r],
                forall|c: int| 0 <= c < j ==> self@[i as int][c] == source@[k as int][c],
            decreases cols - j,
        {
            self.set(i, j, source.get(k, j));
            j = j + 1;
        }
        proof {
            assert(self@[i as int] =~= source@[k as int]);
            assert(self@ =~= old(self)@.update(i as int, source@[k as int]));
        }
        Ok(())
    }

    /// A copy of the matrix.
    pub fn duplicate(&self) -> (m: Matrix<T>)
        requires
            self.wf(),
        ensures
            m.wf(),
            m.rows() == self.rows(),
            m.cols() == self.cols(),
            m@ == self@,
    {
        let ghost rows = self.rows;
        let ghost cols = self.cols;
        let each = |i: usize, j: usize| -> (v: T)
            requires
                i < rows,
                j < cols,
            ensures
                v == cell_of(self@, i, j),
            {
                self.get(i, j)
            };
        let m = Self::build(self.rows, self.cols, each);
        proof {
            assert forall|i: int| 0 <= i < self.rows implies #[trigger] m@[i] =~= self@[i] by {
                assert forall|j: int| 0 <= j < self.cols implies m@[i][j] == self@[i][j] by {
                    assert(m@[i][j] == cell_of(self@, i as usize, j as usize));
                }
            }
            assert(m@ =~= self@);
        }
        m
    }

    /// A copy of row `i`, as a matrix of one row.
    pub fn row(&self, i: usize) -> (m: Matrix<T>)
        requires
            self.wf(),
            i < self.rows(),
        ensures
            m.wf(),
            m.rows() == 1,
            m.cols() == self.cols(),
            m@[0] == self@[i as int],
    {
        let ghost cols = self.cols;
        let each = |r: usize, j: usize| -> (v: T)
            requires
                j < cols,
            ensures
                v == cell_of(self@, i, j),
            {
                self.get(i, j)
            };
        let m = Self::build(1, self.cols, each);
        proof {
            assert(m@[0] =~= self@[i as int]);
        }
        m
    }

    /// Replaces every cell by what `f` returns for its row, its column and
    /// its value, row after row.
    fn update<F: Fn(usize, usize, T) -> T>(&mut self, f: F)
        requires
            old(self).wf(),
            forall|i: int, j: int|
                0 <= i < old(self).rows() && 0 <= j < old(self).cols() ==> call_requires(
                    f,
                    (i as usize, j as usize, #[trigger] old(self)@[i][j]),
                ),
        ensures
            final(self).wf(),
            final(self).rows() == old(self).rows(),
            final(self).cols() == old(self).cols(),
            forall|i: int, j: int|
                0 <= i < old(self).rows() && 0 <= j < old(self).cols() ==> call_ensures(
                    f,
                    (i as usize, j as usize, old(self)@[i][j]),
                    #[trigger] final(self)@[i][j],
                ),
    {
        let rows = self.rows;
        let cols = self.cols;
        let ghost start = self.data@;
        proof {
            assert forall|r: int, c: int| 0 <= r < rows && 0 <= c < cols implies call_requires(
                f,
                (r as usize, c as usize, #[trigger] cell(start, cols as int, r, c)),
            ) by {
                lemma_cell_position(rows as int, cols as int, r, c);
                assert(cell(start, cols as int, r, c) == old(self)@[r][c]);
            }
        }
        let mut i: usize = 0;
        while i < rows
            invariant
                self.rows == rows,
                self.cols == cols,
                self.data@.len() == start.len(),
                start.len() == rows * cols,
                rows * cols <= usize::MAX,
                i <= rows,
                forall|r: int, c: int|
                    0 <= r < rows && 0 <= c < cols ==> call_requires(
                        f,
                        (r as usize, c as usize, #[trigger] cell(start, cols as int, r, c)),
                    ),
                forall|p: int| i * cols <= p < start.len() ==> self.data@[p] == start[p],
                forall|r: int, c: int|
                    0 <= r < i && 0 <= c < cols ==> call_ensures(
                        f,
                        (r as usize, c as usize, cell(start, cols as int, r, c)),
                        #[trigger] cell(self.data@, cols as int, r, c),
                    ),
            decreases rows - i,
        {
            let mut j: usize = 0;
            while j < cols
                invariant
                    self.rows == rows,
                    self.cols == cols,
                    self.data@.len() == start.len(),
                    start.len() == rows * cols,
                    rows * cols <= usize::MAX,
                    i < rows,
                    j <= cols,
                    forall|r: int, c: int|
                        0 <= r < rows && 0 <= c < cols ==> call_requires(
                            f,
                            (r as usize, c as usize, #[trigger] cell(start, cols as int, r, c)),
                        ),
                    forall|p: int| i * cols + j <= p < start.len() ==> self.data@[p] == start[p],
                    forall|r: int, c: int|
                        0 <= r < i && 0 <= c < cols ==> call_ensures(
                            f,
                            (r as usize, c as usize, cell(start, cols as int, r, c)),
                            #[trigger] cell(self.data@, cols as int, r, c),
                        ),
                    forall|c: int|
                        0 <= c < j ==> call_ensures(
                            f,
                            (i, c as usize, cell(start, cols as int, i as int, c)),
                            #[trigger] cell(self.data@, cols as int, i as int, c),
                        ),
                decreases cols - j,
            {
                proof {
                    lemma_cell_position(rows as int, cols as int, i as int, j as int);
                    assert(self.data@[i * cols + j] == cell(
                        start,
                        cols as int,
                        i as int,
                        j as int,
                    ));
                }
                let p = i * cols + j;
                let v = f(i, j, self.data[p]);
                let ghost before = self.data@;
                self.data.set(p, v);
                proof {
                    assert forall|r: int, c: int| 0 <= r < i && 0 <= c < cols implies call_ensures(
                        f,
                        (r as usize, c as usize, cell(start, cols as int, r, c)),
                        #[trigger] cell(self.data@, cols as int, r, c),
                    ) by {
                        lemma_cell_position(i as int, cols as int, r, c);
                        assert(cell(self.data@, cols as int, r, c) == cell(
                            before,
                            cols as int,
                            r,
                            c,
                        ));
                    }
                    assert forall|c: int| 0 <= c < j + 1 implies call_ensures(
                        f,
                        (i, c as usize, cell(start, cols as int, i as int, c)),
                        #[trigger] cell(self.data@, cols as int, i as int, c),
                    ) by {
                        if c < j {
                            assert(cell(self.data@, cols as int, i as int, c) == cell(
                                before,
                                cols as int,
                                i as int,
                                c,
                            ));
                        }
                    }
                }
                j = j + 1;
            }
            proof {
                lemma_row_position(rows as int, cols as int, i as int);
            }
            i = i + 1;
        }
        proof {
            assert forall|i: int, j: int| 0 <= i < rows && 0 <= j < cols implies call_ensures(
                f,
                (i as usize, j as usize, old(self)@[i][j]),
                #[trigger] self@[i][j],
            ) by {
                lemma_cell_position(rows as int, cols as int, i, j);
                assert(self@[i][j] == cell(self.data@, cols as int, i, j));
                assert(old(self)@[i][j] == cell(start, cols as int, i, j));
            }
        }
    }

    /// Replaces every cell by what `f` returns for it and the cell of
    /// `other` in the same place.
    ///
    /// This is refused, and `self` left as it was, unless `other` has the
    /// shape of `self`.
    pub fn combine<F: Fn(T, T) -> T>(&mut self, other: &Matrix<T>, f: F) -> (r: Result<(), Error>)
        requires
            old(self).wf(),
            other.wf(),
            forall|i: int, j: int|
                0 <= i < old(self).rows() && 0 <= j < old(self).cols() && i < other.rows() && j
                    < other.cols() ==> call_requires(
                    f,
                    (#[trigger] old(self)@[i][j], other@[i][j]),
                ),
        ensures
            final(self).wf(),
            final(self).rows() == old(self).rows(),
            final(self).cols() == old(self).cols(),
            r is Err <==> (other.rows() != old(self).rows() || other.cols() != old(self).cols()),
            r matches Err(e) ==> e == Error::DimensionMismatch && final(self)@ == old(self)@,
            r is Ok ==> forall|i: int, j: int|
                0 <= i < old(self).rows() && 0 <= j < old(self).cols() ==> call_ensures(
                    f,
                    (old(self)@[i][j], other@[i][j]),
                    #[trigger] final(self)@[i][j],
                ),
    {
        if other.rows != self.rows || other.cols != self.cols {
            return Err(Error::DimensionMismatch);
        }
        let ghost rows = self.rows;
        let ghost cols = self.cols;
        let g = &f;
        let each = |i: usize, j: usize, x: T| -> (v: T)
            requires
                i < rows,
                j < cols,
                accepts_pair(g, x, cell_of(other@, i, j)),
            ensures
                call_ensures(*g, (x, cell_of(other@, i, j)), v),
            {
                g(x, other.get(i, j))
            };
        self.update(each);
        Ok(())
    }

    /// Replaces every cell by what `f` returns for it.
    pub fn map<F: Fn(T) -> T>(&mut self, f: F)
        requires
            old(self).wf(),
            forall|i: int, j: int|
                0 <= i < old(self).rows() && 0 <= j < old(self).cols() ==> call_requires(
                    f,
                    (#[trigger] old(self)@[i][j],),
                ),
        ensures
            final(self).wf(),
            final(self).rows() == old(self).rows(),
            final(self).cols() == old(self).cols(),
            forall|i: int, j: int|
                0 <= i < old(self).rows() && 0 <= j < old(self).cols() ==> call_ensures(
                    f,
                    (old(self)@[i][j],),
                    #[trigger] final(self)@[i][j],
                ),
    {
        let g = &f;
        let each = |i: usize, j: usize, x: T| -> (v: T)
            requires
                accepts(g, x),
            ensures
                call_ensures(*g, (x,), v),
            {
                g(x)
            };
        self.update(each);
    }

    /// Adds the single row of `row` to every row of `self`.
    ///
    /// This is refused, and `self` left as it was, unless `row` has one row
    /// and as many columns as `self`.
    pub fn add_row(&mut self, row: &Matrix<T>) -> (r: Result<(), Error>)
        requires
            old(self).wf(),
            row.wf(),
        ensures
            final(self).wf(),
            final(self).rows() == old(self).rows(),
            final(self).cols() == old(self).cols(),
            r is Err <==> (row.rows() != 1 || row.cols() != old(self).cols()),
            r matches Err(e) ==> e == Error::DimensionMismatch && final(self)@ == old(self)@,
            r is Ok ==> forall|i: int, j: int|
                0 <= i < old(self).rows() && 0 <= j < old(self).cols() ==> is_sum(
                    old(self)@[i][j],
                    row@[0][j],
                    #[trigger] final(self)@[i][j],
                ),
    {
        if row.rows != 1 || row.cols != self.cols {
            return Err(Error::DimensionMismatch);
        }
        let ghost cols = self.cols;
        let each = |i: usize, j: usize, x: T| -> (v: T)
            requires
                j < cols,
            ensures
                is_sum(x, cell_of(row@, 0, j), v),
            {
                x.plus(row.get(0, j))
            };
        self.update(each);
        Ok(())
    }

    /// Adds to every cell `(i, j)` the product of cell `i` of the row `a`
    /// and cell `j` of the row `d`: the outer product of the two rows.
    ///
    /// This is refused, and `self` left as it was, unless `a` is one row of
    /// as many cells as `self` has rows, and `d` one row of as many cells as
    /// `self` has columns.
    pub fn add_outer(&mut self, a: &Matrix<T>, d: &Matrix<T>) -> (r: Result<(), Error>)
        requires
            old(self).wf(),
            a.wf(),
            d.wf(),
        ensures
            final(self).wf(),
            final(self).rows() == old(self).rows(),
            final(self).cols() == old(self).cols(),
            r is Err <==> (a.rows() != 1 || d.rows() != 1 || a.cols() != old(self).rows()
                || d.cols() != old(self).cols()),
            r matches Err(e) ==> e == Error::DimensionMismatch && final(self)@ == old(self)@,
            r is Ok ==> forall|i: int, j: int|
                0 <= i < old(self).rows() && 0 <= j < old(self).cols() ==> is_product_added(
                    old(self)@[i][j],
                    a@[0][i],
                    d@[0][j],
                    #[trigger] final(self)@[i][j],
                ),
    {
        if a.rows != 1 || d.rows != 1 || a.cols != self.rows || d.cols != self.cols {
            return Err(Error::DimensionMismatch);
        }
        let ghost rows = self.rows;
        let ghost cols = self.cols;
        let each = |i: usize, j: usize, x: T| -> (v: T)
            requires
                i < rows,
                j < cols,
            ensures
                is_product_added(x, cell_of(a@, 0, i), cell_of(d@, 0, j), v),
            {
                let m = a.get(0, i).times(d.get(0, j));
                let v = x.plus(m);
                assert(is_term_added(x, cell_of(a@, 0, i), cell_of(d@, 0, j), m, v));
                v
            };
        self.update(each);
        Ok(())
    }

    /// Replaces every cell by a fresh draw, scaled into the range from `low`
    /// to `high`.
    ///
    /// `draw` is called once for each cell, row after row, and is expected
    /// to return a number between zero and one.
    pub fn randomize<F: Fn() -> T>(&mut self, low: T, high: T, draw: &F)
        requires
            old(self).wf(),
            call_requires(*draw, ()),
        ensures
            final(self).wf(),
            final(self).rows() == old(self).rows(),
            final(self).cols() == old(self).cols(),
            forall|i: int, j: int|
                0 <= i < old(self).rows() && 0 <= j < old(self).cols() ==> is_drawn(
                    *draw,
                    low,
                    high,
                    #[trigger] final(self)@[i][j],
                ),
    {
        let each = |i: usize, j: usize, x: T| -> (v: T)
            ensures
                is_drawn(*draw, low, high, v),
            {
                let u = draw();
                scale(u, low, high)
            };
        self.update(each);
    }
}

/// `f` may be called on `x`.
pub open spec fn accepts<T, F: Fn(T) -> T>(f: &F, x: T) -> bool {
    call_requires(*f, (x,))
}

/// `f` may be called on `x` and `y`.
pub open spec fn accepts_pair<T, F: Fn(T, T) -> T>(f: &F, x: T, y: T) -> bool {
    call_requires(*f, (x, y))
}

/// Row `i` of a sequence of rows.
pub open spec fn row_of<T>(m: Seq<Seq<T>>, i: usize) -> Seq<T> {
    m[i as int]
}

/// Column `j` of a sequence of rows.
pub open spec fn column_of<T>(m: Seq<Seq<T>>, j: usize) -> Seq<T> {
    column(m, j as int)
}

/// `r` is a value that `draw` can return, scaled into the range from `low`
/// to `high`.
pub open spec fn is_drawn<T: Scalar, F: Fn() -> T>(draw: F, low: T, high: T, r: T) -> bool {
    exists|u: T| call_ensures(draw, (), u) && #[trigger] is_scaled(u, low, high, r)
}

/// The cell of row `i` and column `j` of a sequence of rows.
pub open spec fn cell_of<T>(m: Seq<Seq<T>>, i: usize, j: usize) -> T {
    m[i as int][j as int]
}

/// The cell of row `r` and column `c` in row-major storage of width `cols`.
pub open spec fn cell<T>(data: Seq<T>, cols: int, r: int, c: int) -> T {
    data[r * cols + c]
}

} // verus!
