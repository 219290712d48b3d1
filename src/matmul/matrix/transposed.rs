//! The column-major matrix.

use vstd::prelude::*;

use crate::matmul::algebra::{zeros, LANES};
use crate::matmul::matrix::standard::{flatten, lemma_offset_in_bounds, pattern, Matrix};
use crate::matmul::matrix::traits::IndexUnchecked;

verus! {

/// A column-major matrix: entry `(r, c)` is stored at offset `c * rows + r`,
/// so that each column is contiguous.
#[derive(Debug, PartialEq, Clone)]
pub struct TransposedMatrix {
    pub rows: usize,
    pub columns: usize,
    pub aligned: bool,
    pub data: Vec<i64>,
}

/// The grid that column-major `data` holds.
pub open spec fn column_major(rows: nat, columns: nat, data: Seq<i64>) -> Seq<Seq<int>> {
    Seq::new(rows, |i: int| Seq::new(columns, |j: int| data[j * rows + i] as int))
}

impl View for TransposedMatrix {
    type V = Seq<Seq<int>>;

    open spec fn view(&self) -> Seq<Seq<int>> {
        column_major(self.rows as nat, self.columns as nat, self.data@)
    }
}

impl TransposedMatrix {
    /// The storage holds exactly `rows * columns` entries.
    pub open spec fn wf(&self) -> bool {
        &&& self.data@.len() == self.rows * self.columns
        &&& self.rows * self.columns <= usize::MAX
    }

    /// Create a new matrix from the given parts (column-major); it is not lane-packed.
    pub fn new(rows: usize, columns: usize, data: Vec<i64>) -> (r: Self)
        requires
            data@.len() == rows * columns,
        ensures
            r.wf(),
            r.rows == rows,
            r.columns == columns,
            r.data@ == data@,
            !r.aligned,
    {
        assert(data@.len() == data.len());
        Self { rows, columns, data, aligned: false }
    }

    /// Create a lane-packed matrix from groups of `LANES` values, laid out one
    /// group after another in column-major order.
    pub fn new_aligned(rows: usize, columns: usize, data: Vec<[i64; 4]>) -> (r: Self)
        requires
            data@.len() * 4 == rows * columns,
            rows * columns <= usize::MAX,
        ensures
            r.wf(),
            r.rows == rows,
            r.columns == columns,
            r.data@ == flatten(data@),
            r.aligned,
    {
        let m = Matrix::new_aligned(1, rows * columns, data);
        Self { rows, columns, data: m.data, aligned: true }
    }

    /// Create a zero matrix; it is lane-packed if `columns` is a multiple of `LANES`.
    pub fn zero(rows: usize, columns: usize) -> (r: Self)
        requires
            rows * columns <= usize::MAX,
        ensures
            r.wf(),
            r.rows == rows,
            r.columns == columns,
            r@ == zeros(rows as nat, columns as nat),
            r.aligned == (columns % 4 == 0),
    {
        let data: Vec<i64> = vec![0; rows * columns];
        let r = Self { rows, columns, data, aligned: columns % LANES == 0 };
        proof {
            lemma_all_zero_is_zeros(r);
        }
        r
    }

    /// Create a matrix whose storage holds the fixed pattern of
    /// `Matrix::random`; it is lane-packed if `columns` is a multiple of `LANES`.
    pub fn random(rows: usize, columns: usize) -> (r: Self)
        requires
            rows * columns <= usize::MAX,
            rows * columns <= i64::MAX,
        ensures
            r.wf(),
            r.rows == rows,
            r.columns == columns,
            r.aligned == (columns % 4 == 0),
            forall|t: int| 0 <= t < rows * columns ==> r.data@[t] == pattern(t, columns % 4 == 0),
    {
        let m = Matrix::random(rows, columns);
        Self { rows, columns, data: m.data, aligned: m.aligned }
    }

    /// Reset all entries to zero.
    pub fn reset(&mut self)
        requires
            old(self).wf(),
        ensures
            final(self).wf(),
            final(self).rows == old(self).rows,
            final(self).columns == old(self).columns,
            final(self).aligned == old(self).aligned,
            final(self)@ == zeros(old(self).rows as nat, old(self).columns as nat),
    {
        let n = self.data.len();
        let mut t: usize = 0;
        while t < n
            invariant
                0 <= t <= n,
                n == self.data@.len(),
                self.rows == old(self).rows,
                self.columns == old(self).columns,
                self.aligned == old(self).aligned,
                self.wf(),
                forall|s: int| 0 <= s < t ==> self.data@[s] == 0,
            decreases n - t,
        {
            self.data[t] = 0;
            t = t + 1;
        }
        proof {
            lemma_all_zero_is_zeros(*self);
        }
    }

    /// Whether this matrix is lane-packed.
    pub fn is_aligned(&self) -> (r: bool)
        ensures
            r == self.aligned,
    {
        self.aligned
    }

    /// Entry `(row, column)`.
    pub fn get(&self, row: usize, column: usize) -> (r: i64)
        requires
            self.wf(),
            row < self.rows,
            column < self.columns,
        ensures
            r == self@[row as int][column as int],
    {
        proof {
            lemma_offset_in_bounds(column as int, row as int, self.columns as int, self.rows as int);
        }
        self.data[column * self.rows + row]
    }

    /// The transpose layout of `matrix`: the same entries, stored column by column.
    /// It is lane-packed if `matrix.rows` is a multiple of `LANES`.
    pub fn from_matrix(matrix: Matrix) -> (r: Self)
        requires
            matrix.wf(),
        ensures
            r.wf(),
            r.rows == matrix.rows,
            r.columns == matrix.columns,
            r@ == matrix@,
            r.aligned == (matrix.rows % 4 == 0),
    {
        let rows = matrix.rows;
        let columns = matrix.columns;
        let mut tmp = Matrix::zero(columns, rows);
        let mut i: usize = 0;
        while i < rows
            invariant
                matrix.wf(),
                tmp.wf(),
                rows == matrix.rows,
                columns == matrix.columns,
                tmp.rows == columns,
                tmp.columns == rows,
                tmp.aligned == (rows % 4 == 0),
                0 <= i <= rows,
                forall|p: int, q: int| 0 <= p < rows && 0 <= q < columns ==> #[trigger] tmp@[q][p] == if p < i {
                    matrix@[p][q]
                } else {
                    0
                },
            decreases rows - i,
        {
            let mut j: usize = 0;
            while j < columns
                invariant
                    matrix.wf(),
                    tmp.wf(),
                    rows == matrix.rows,
                    columns == matrix.columns,
                    tmp.rows == columns,
                    tmp.columns == rows,
                    tmp.aligned == (rows % 4 == 0),
                    0 <= i < rows,
                    0 <= j <= columns,
                    forall|p: int, q: int| 0 <= p < rows && 0 <= q < columns ==> #[trigger] tmp@[q][p] == if p < i || (p == i && q < j) {
                        matrix@[p][q]
                    } else {
                        0
                    },
                decreases columns - j,
            {
                let v = matrix.get(i, j);
                tmp.set(j, i, v);
                j = j + 1;
            }
            i = i + 1;
        }
        let r = Self { rows, columns, aligned: tmp.is_aligned(), data: tmp.data };
        proof {
            assert forall|p: int, q: int| 0 <= p < rows && 0 <= q < columns implies #[trigger] r@[p][q] == matrix@[p][q] by {
                assert(r@[p][q] == tmp@[q][p]);
                lemma_offset_in_bounds(q, p, columns as int, rows as int);
            }
            assert forall|p: int| 0 <= p < rows implies #[trigger] r@[p] =~= matrix@[p] by {
                assert forall|q: int| 0 <= q < columns implies r@[p][q] == matrix@[p][q] by {
                    assert(r@[p][q] == matrix@[p][q]);
                }
            }
            assert(r@ =~= matrix@);
        }
        r
    }
}

/// A column-major matrix whose storage holds only zeros is the zero grid.
pub proof fn lemma_all_zero_is_zeros(m: TransposedMatrix)
    requires
        m.wf(),
        forall|t: int| 0 <= t < m.data@.len() ==> m.data@[t] == 0,
    ensures
        m@ == zeros(m.rows as nat, m.columns as nat),
{
    let z = zeros(m.rows as nat, m.columns as nat);
    assert forall|i: int| 0 <= i < m.rows implies #[trigger] m@[i] =~= z[i] by {
        assert forall|j: int| 0 <= j < m.columns implies m@[i][j] == z[i][j] by {
            lemma_offset_in_bounds(j, i, m.columns as int, m.rows as int);
        }
    }
    assert(m@ =~= z);
}

impl IndexUnchecked<usize> for TransposedMatrix {
    type Output = i64;

    open spec fn index_valid(&self, index: usize) -> bool {
        index < self.data@.len()
    }

    open spec fn entry(&self, index: usize) -> i64 {
        self.data@[index as int]
    }

    open spec fn stored(&self, next: &Self, index: usize, value: i64) -> bool {
        &&& next.rows == self.rows
        &&& next.columns == self.columns
        &&& next.aligned == self.aligned
        &&& next.data@ == self.data@.update(index as int, value)
    }

    fn get_unchecked(&self, index: usize) -> (r: &i64) {
        &self.data[index]
    }

    fn get_unchecked_mut(&mut self, index: usize) -> (r: &mut i64) {
        &mut self.data[index]
    }
}

impl IndexUnchecked<(usize, usize)> for TransposedMatrix {
    type Output = i64;

    open spec fn index_valid(&self, index: (usize, usize)) -> bool {
        &&& self.wf()
        &&& index.0 < self.rows
        &&& index.1 < self.columns
    }

    open spec fn entry(&self, index: (usize, usize)) -> i64 {
        self.data@[index.1 * self.rows + index.0]
    }

    open spec fn stored(&self, next: &Self, index: (usize, usize), value: i64) -> bool {
        &&& next.rows == self.rows
        &&& next.columns == self.columns
        &&& next.aligned == self.aligned
        &&& next.data@ == self.data@.update(index.1 * self.rows + index.0, value)
    }

    fn get_unchecked(&self, index: (usize, usize)) -> (r: &i64) {
        proof {
            lemma_offset_in_bounds(index.1 as int, index.0 as int, self.columns as int, self.rows as int);
        }
        &self.data[index.1 * self.rows + index.0]
    }

    fn get_unchecked_mut(&mut self, index: (usize, usize)) -> (r: &mut i64) {
        proof {
            lemma_offset_in_bounds(index.1 as int, index.0 as int, self.columns as int, self.rows as int);
        }
        &mut self.data[index.1 * self.rows + index.0]
    }
}

} // verus!
