//! The row-major matrix.

use vstd::prelude::*;

use crate::matmul::algebra::{zeros, LANES};
use crate::matmul::matrix::traits::IndexUnchecked;

verus! {

/// A row-major matrix: entry `(r, c)` is stored at offset `r * columns + c`.
///
/// A matrix built lane-packed (from groups of `LANES` values, or by `zero`
/// and `random` when `columns` is a multiple of `LANES`) reports
/// `is_aligned()`; vectorised kernels take their fast path on such matrices.
#[derive(Debug, PartialEq, Clone)]
pub struct Matrix {
    pub rows: usize,
    pub columns: usize,
    pub aligned: bool,
    pub data: Vec<i64>,
}

/// The row-major grid that `data` holds.
pub open spec fn row_major(rows: nat, columns: nat, data: Seq<i64>) -> Seq<Seq<int>> {
    Seq::new(rows, |i: int| Seq::new(columns, |j: int| data[i * columns + j] as int))
}

/// The scalars of `groups`, one lane group after another.
pub open spec fn flatten(groups: Seq<[i64; 4]>) -> Seq<i64> {
    Seq::new(groups.len() * 4, |t: int| groups[t / 4]@[t % 4])
}

/// The value that `Matrix::random` stores at offset `t`: the offset itself,
/// or in a lane-packed matrix the index of its lane group.
pub open spec fn pattern(t: int, packed: bool) -> int {
    if packed { t / 4 } else { t }
}

impl View for Matrix {
    type V = Seq<Seq<int>>;

    open spec fn view(&self) -> Seq<Seq<int>> {
        row_major(self.rows as nat, self.columns as nat, self.data@)
    }
}

impl Matrix {
    /// The storage holds exactly `rows * columns` entries, and a lane-packed
    /// matrix has whole lane groups in each row.
    pub open spec fn wf(&self) -> bool {
        &&& self.data@.len() == self.rows * self.columns
        &&& self.rows * self.columns <= usize::MAX
        &&& self.aligned ==> self.columns % 4 == 0
    }

    /// Entry `(i, j)`.
    pub open spec fn at(&self, i: int, j: int) -> int {
        self.data@[i * self.columns + j] as int
    }

    /// Create a new matrix from the given parts; it is not lane-packed.
    pub fn new(rows: usize, columns: usize, data: Vec<i64>) -> (r: Self)
        requires
            data@.len() == rows * columns,
        ensures
            r.wf(),
            r.rows == rows,
            r.columns == columns,
            r.data@ == data@,
            !r.aligned,
    {
        assert(data@.len() == data.len());
        Self { rows, columns, data, aligned: false }
    }

    /// Create a lane-packed matrix from groups of `LANES` values, laid out
    /// one group after another in row-major order.
    pub fn new_aligned(rows: usize, columns: usize, data: Vec<[i64; 4]>) -> (r: Self)
        requires
            data@.len() * 4 == rows * columns,
            columns % 4 == 0,
        ensures
            r.wf(),
            r.rows == rows,
            r.columns == columns,
            r.data@ == flatten(data@),
            r.aligned,
    {
        let mut flat: Vec<i64> = Vec::new();
        let mut g: usize = 0;
        while g < data.len()
            invariant
                0 <= g <= data@.len(),
                flat@.len() == g * 4,
                forall|t: int| 0 <= t < g * 4 ==> flat@[t] == data@[t / 4]@[t % 4],
            decreases data@.len() - g,
        {
            let group = data[g];
            let mut l: usize = 0;
            while l < LANES
                invariant
                    0 <= g < data@.len(),
                    0 <= l <= 4,
                    group == data@[g as int],
                    flat@.len() == g * 4 + l,
                    forall|t: int| 0 <= t < g * 4 + l ==> flat@[t] == data@[t / 4]@[t % 4],
                decreases 4 - l,
            {
                flat.push(group[l]);
                l = l + 1;
            }
            g = g + 1;
        }
        assert(flat@ =~= flatten(data@));
        assert(flat@.len() == flat.len());
        Self { rows, columns, data: flat, aligned: true }
    }

    /// Create a zero matrix; it is lane-packed if `columns` is a multiple of `LANES`.
    pub fn zero(rows: usize, columns: usize) -> (r: Self)
        requires
            rows * columns <= usize::MAX,
        ensures
            r.wf(),
            r.rows == rows,
            r.columns == columns,
            r@ == zeros(rows as nat, columns as nat),
            forall|t: int| 0 <= t < rows * columns ==> r.data@[t] == 0,
            r.aligned == (columns % 4 == 0),
    {
        let data: Vec<i64> = vec![0; rows * columns];
        let r = Self { rows, columns, data, aligned: columns % LANES == 0 };
        proof {
            lemma_all_zero_is_zeros(r);
        }
        r
    }

    /// Create a matrix filled with a fixed pattern (see `pattern`); it is
    /// lane-packed if `columns` is a multiple of `LANES`.
    pub fn random(rows: usize, columns: usize) -> (r: Self)
        requires
            rows * columns <= usize::MAX,
            rows * columns <= i64::MAX,
        ensures
            r.wf(),
            r.rows == rows,
            r.columns == columns,
            r.aligned == (columns % 4 == 0),
            forall|t: int| 0 <= t < rows * columns ==> r.data@[t] == pattern(t, columns % 4 == 0),
    {
        let n = rows * columns;
        let packed = columns % LANES == 0;
        let mut data: Vec<i64> = Vec::with_capacity(n);
        let mut t: usize = 0;
        while t < n
            invariant
                0 <= t <= n,
                n <= i64::MAX,
                packed == (columns % 4 == 0),
                data@.len() == t,
                forall|s: int| 0 <= s < t ==> data@[s] == pattern(s, packed),
            decreases n - t,
        {
            if packed {
                data.push((t / LANES) as i64);
            } else {
                data.push(t as i64);
            }
            t = t + 1;
        }
        Self { rows, columns, data, aligned: packed }
    }

    /// Reset all entries to zero.
    pub fn reset(&mut self)
        requires
            old(self).wf(),
        ensures
            final(self).wf(),
            final(self).rows == old(self).rows,
            final(self).columns == old(self).columns,
            final(self).aligned == old(self).aligned,
            final(self)@ == zeros(old(self).rows as nat, old(self).columns as nat),
            forall|t: int| 0 <= t < final(self).data@.len() ==> final(self).data@[t] == 0,
    {
        let n = self.data.len();
        let mut t: usize = 0;
        while t < n
            invariant
                0 <= t <= n,
                n == self.data@.len(),
                self.rows == old(self).rows,
                self.columns == old(self).columns,
                self.aligned == old(self).aligned,
                self.wf(),
                forall|s: int| 0 <= s < t ==> self.data@[s] == 0,
            decreases n - t,
        {
            self.data[t] = 0;
            t = t + 1;
        }
        proof {
            lemma_all_zero_is_zeros(*self);
        }
    }

    /// Whether this matrix is lane-packed and may take a vectorised fast path.
    pub fn is_aligned(&self) -> (r: bool)
        ensures
            r == self.aligned,
    {
        self.aligned
    }

    /// Entry `(row, column)`.
    pub fn get(&self, row: usize, column: usize) -> (r: i64)
        requires
            self.wf(),
            row < self.rows,
            column < self.columns,
        ensures
            r == self@[row as int][column as int],
    {
        proof {
            lemma_offset_in_bounds(row as int, column as int, self.rows as int, self.columns as int);
        }
        self.data[row * self.columns + column]
    }

    /// Store `value` at entry `(row, column)`.
    pub fn set(&mut self, row: usize, column: usize, value: i64)
        requires
            old(self).wf(),
            row < old(self).rows,
            column < old(self).columns,
        ensures
            final(self).wf(),
            final(self).rows == old(self).rows,
            final(self).columns == old(self).columns,
            final(self).aligned == old(self).aligned,
            final(self)@ == old(self)@.update(row as int, old(self)@[row as int].update(column as int, value as int)),
    {
        proof {
            lemma_offset_in_bounds(row as int, column as int, self.rows as int, self.columns as int);
        }
        let ghost before = *self;
        self.data.set(row * self.columns + column, value);
        proof {
            lemma_store(before, *self, row as int, column as int, value);
        }
    }
}

/// Storing `value` at the offset of entry `(row, column)` replaces that entry
/// of the grid and no other.
pub proof fn lemma_store(before: Matrix, after: Matrix, row: int, column: int, value: i64)
    requires
        before.wf(),
        0 <= row < before.rows,
        0 <= column < before.columns,
        after.rows == before.rows,
        after.columns == before.columns,
        after.aligned == before.aligned,
        after.data@ == before.data@.update(row * before.columns + column, value),
    ensures
        after.wf(),
        after@ == before@.update(row, before@[row].update(column, value as int)),
{
    let rows = before.rows as int;
    let columns = before.columns as int;
    lemma_offset_in_bounds(row, column, rows, columns);
    let target = before@.update(row, before@[row].update(column, value as int));
    assert forall|i: int| 0 <= i < rows implies #[trigger] after@[i] =~= target[i] by {
        assert forall|j: int| 0 <= j < columns implies after@[i][j] == target[i][j] by {
            lemma_offset_in_bounds(i, j, rows, columns);
            lemma_offset_injective(i, j, row, column, columns);
        }
    }
    assert(after@ =~= target);
}

/// A matrix whose storage holds only zeros is the zero grid.
pub proof fn lemma_all_zero_is_zeros(m: Matrix)
    requires
        m.wf(),
        forall|t: int| 0 <= t < m.data@.len() ==> m.data@[t] == 0,
    ensures
        m@ == zeros(m.rows as nat, m.columns as nat),
{
    let z = zeros(m.rows as nat, m.columns as nat);
    assert forall|i: int| 0 <= i < m.rows implies #[trigger] m@[i] =~= z[i] by {
        assert forall|j: int| 0 <= j < m.columns implies m@[i][j] == z[i][j] by {
            lemma_offset_in_bounds(i, j, m.rows as int, m.columns as int);
        }
    }
    assert(m@ =~= z);
}

/// The offset of an entry inside a `rows` x `columns` grid lies in the storage.
pub proof fn lemma_offset_in_bounds(i: int, j: int, rows: int, columns: int)
    requires
        0 <= i < rows,
        0 <= j < columns,
    ensures
        0 <= i * columns + j < rows * columns,
{
    assert(i * columns + j < rows * columns) by (nonlinear_arith)
        requires 0 <= i < rows, 0 <= j < columns;
    assert(0 <= i * columns) by (nonlinear_arith)
        requires 0 <= i, 0 <= columns;
}

/// Distinct entries of a grid with `columns` columns have distinct offsets.
pub proof fn lemma_offset_injective(i: int, j: int, k: int, l: int, columns: int)
    requires
        0 <= j < columns,
        0 <= l < columns,
        0 <= i,
        0 <= k,
    ensures
        (i * columns + j == k * columns + l) == (i == k && j == l),
{
    if i < k {
        assert(i * columns + j < k * columns + l) by (nonlinear_arith)
            requires i < k, 0 <= j < columns, 0 <= l;
    } else if k < i {
        assert(k * columns + l < i * columns + j) by (nonlinear_arith)
            requires k < i, 0 <= l < columns, 0 <= j;
    }
}

impl IndexUnchecked<usize> for Matrix {
    type Output = i64;

    open spec fn index_valid(&self, index: usize) -> bool {
        index < self.data@.len()
    }

    open spec fn entry(&self, index: usize) -> i64 {
        self.data@[index as int]
    }

    open spec fn stored(&self, next: &Self, index: usize, value: i64) -> bool {
        &&& next.rows == self.rows
        &&& next.columns == self.columns
        &&& next.aligned == self.aligned
        &&& next.data@ == self.data@.update(index as int, value)
    }

    fn get_unchecked(&self, index: usize) -> (r: &i64) {
        &self.data[index]
    }

    fn get_unchecked_mut(&mut self, index: usize) -> (r: &mut i64) {
        &mut self.data[index]
    }
}

impl IndexUnchecked<(usize, usize)> for Matrix {
    type Output = i64;

    open spec fn index_valid(&self, index: (usize, usize)) -> bool {
        &&& self.wf()
        &&& index.0 < self.rows
        &&& index.1 < self.columns
    }

    open spec fn entry(&self, index: (usize, usize)) -> i64 {
        self.data@[index.0 * self.columns + index.1]
    }

    open spec fn stored(&self, next: &Self, index: (usize, usize), value: i64) -> bool {
        &&& next.rows == self.rows
        &&& next.columns == self.columns
        &&& next.aligned == self.aligned
        &&& next.data@ == self.data@.update(index.0 * self.columns + index.1, value)
    }

    fn get_unchecked(&self, index: (usize, usize)) -> (r: &i64) {
        proof {
            lemma_offset_in_bounds(index.0 as int, index.1 as int, self.rows as int, self.columns as int);
        }
        &self.data[index.0 * self.columns + index.1]
    }

    fn get_unchecked_mut(&mut self, index: (usize, usize)) -> (r: &mut i64) {
        proof {
            lemma_offset_in_bounds(index.0 as int, index.1 as int, self.rows as int, self.columns as int);
        }
        &mut self.data[index.0 * self.columns + index.1]
    }
}

} // verus!
