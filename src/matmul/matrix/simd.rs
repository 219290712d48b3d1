//! The lane-packed row-major matrix.

use vstd::prelude::*;

use crate::matmul::algebra::LANES;
use crate::matmul::matrix::standard::{lemma_offset_in_bounds, Matrix};
use crate::matmul::matrix::traits::IndexUnchecked;

verus! {

/// A row-major matrix of lane groups: each entry packs `LANES` consecutive
/// scalars of a row, so `columns` counts groups, not scalars.
#[derive(Debug, Clone)]
pub struct SimdMatrix {
    pub rows: usize,
    pub columns: usize,
    pub aligned: bool,
    pub data: Vec<[i64; 4]>,
}

/// The scalar grid that a row-major store of lane groups holds: `rows` rows
/// of `4 * columns` scalars.
pub open spec fn unpacked(rows: nat, columns: nat, data: Seq<[i64; 4]>) -> Seq<Seq<int>> {
    Seq::new(rows, |i: int| Seq::new(4 * columns, |j: int| data[i * columns + j / 4]@[j % 4] as int))
}

impl View for SimdMatrix {
    type V = Seq<Seq<int>>;

    open spec fn view(&self) -> Seq<Seq<int>> {
        unpacked(self.rows as nat, self.columns as nat, self.data@)
    }
}

impl SimdMatrix {
    /// The storage holds exactly `rows * columns` lane groups.
    pub open spec fn wf(&self) -> bool {
        &&& self.data@.len() == self.rows * self.columns
        &&& self.rows * self.columns <= usize::MAX
    }

    /// Create a new matrix from the given parts.
    pub fn new(rows: usize, columns: usize, data: Vec<[i64; 4]>) -> (r: Self)
        requires
            data@.len() == rows * columns,
        ensures
            r.wf(),
            r.rows == rows,
            r.columns == columns,
            r.data@ == data@,
            r.aligned,
    {
        assert(data@.len() == data.len());
        Self { rows, columns, data, aligned: true }
    }

    /// Reset all entries to zero.
    pub fn reset(&mut self)
        requires
            old(self).wf(),
        ensures
            final(self).wf(),
            final(self).rows == old(self).rows,
            final(self).columns == old(self).columns,
            final(self).aligned == old(self).aligned,
            forall|t: int| 0 <= t < final(self).data@.len() ==> (#[trigger] final(self).data@[t])@ == seq![0i64, 0, 0, 0],
            forall|i: int, j: int| 0 <= i < final(self).rows && 0 <= j < 4 * final(self).columns ==> #[trigger] final(self)@[i][j] == 0,
    {
        let n = self.data.len();
        let mut t: usize = 0;
        while t < n
            invariant
                0 <= t <= n,
                n == self.data@.len(),
                self.rows == old(self).rows,
                self.columns == old(self).columns,
                self.aligned == old(self).aligned,
                self.wf(),
                forall|s: int| 0 <= s < t ==> (#[trigger] self.data@[s])@ == seq![0i64, 0, 0, 0],
            decreases n - t,
        {
            self.data[t] = [0, 0, 0, 0];
            assert(self.data@[t as int]@ =~= seq![0i64, 0, 0, 0]);
            t = t + 1;
        }
        assert forall|i: int, j: int| 0 <= i < self.rows && 0 <= j < 4 * self.columns implies #[trigger] self@[i][j] == 0 by {
            lemma_offset_in_bounds(i, j / 4, self.rows as int, self.columns as int);
            assert(self.data@[i * self.columns + j / 4]@ == seq![0i64, 0, 0, 0]);
        }
    }

    /// Whether this matrix may be used by the vectorised kernels.
    pub fn is_aligned(&self) -> (r: bool)
        ensures
            r == self.aligned,
    {
        self.aligned
    }

    /// The lane-packed form of an aligned matrix: the same scalars, grouped
    /// `LANES` at a time along each row.
    pub fn from_matrix(matrix: Matrix) -> (r: Self)
        requires
            matrix.wf(),
            matrix.aligned,
        ensures
            r.wf(),
            r.rows == matrix.rows,
            4 * r.columns == matrix.columns,
            r@ == matrix@,
            r.aligned,
    {
        let n = matrix.data.len() / LANES;
        assert(matrix.data@.len() == matrix.data.len());
        let mut data: Vec<[i64; 4]> = Vec::new();
        let mut g: usize = 0;
        proof {
            assert(matrix.data@.len() == matrix.rows * (matrix.columns / 4) * 4) by (nonlinear_arith)
                requires matrix.data@.len() == matrix.rows * matrix.columns, matrix.columns % 4 == 0;
        }
        while g < n
            invariant
                0 <= g <= n,
                n * 4 == matrix.data@.len(),
                matrix.data@.len() <= usize::MAX,
                data@.len() == g,
                forall|s: int| 0 <= s < g ==> (#[trigger] data@[s])@ == matrix.data@.subrange(4 * s, 4 * s + 4),
            decreases n - g,
        {
            let o = g * LANES;
            let group = [matrix.data[o], matrix.data[o + 1], matrix.data[o + 2], matrix.data[o + 3]];
            assert(group@ =~= matrix.data@.subrange(4 * g, 4 * g + 4));
            data.push(group);
            g = g + 1;
        }
        let columns = matrix.columns / LANES;
        proof {
            assert(n == matrix.rows * columns) by (nonlinear_arith)
                requires n * 4 == matrix.rows * matrix.columns, matrix.columns % 4 == 0, columns == matrix.columns / 4;
        }
        let r = Self::new(matrix.rows, columns, data);
        proof {
            assert forall|i: int| 0 <= i < matrix.rows implies #[trigger] r@[i] =~= matrix@[i] by {
                assert forall|j: int| 0 <= j < matrix.columns implies r@[i][j] == matrix@[i][j] by {
                    let s = i * columns + j / 4;
                    lemma_offset_in_bounds(i, j / 4, matrix.rows as int, columns as int);
                    assert(i * matrix.columns + j == 4 * s + j % 4) by (nonlinear_arith)
                        requires s == i * columns + j / 4, matrix.columns == 4 * columns, 0 <= j;
                }
            }
            assert(r@ =~= matrix@);
        }
        r
    }
}

impl IndexUnchecked<usize> for SimdMatrix {
    type Output = [i64; 4];

    open spec fn index_valid(&self, index: usize) -> bool {
        index < self.data@.len()
    }

    open spec fn entry(&self, index: usize) -> [i64; 4] {
        self.data@[index as int]
    }

    open spec fn stored(&self, next: &Self, index: usize, value: [i64; 4]) -> bool {
        &&& next.rows == self.rows
        &&& next.columns == self.columns
        &&& next.aligned == self.aligned
        &&& next.data@ == self.data@.update(index as int, value)
    }

    fn get_unchecked(&self, index: usize) -> (r: &[i64; 4]) {
        &self.data[index]
    }

    fn get_unchecked_mut(&mut self, index: usize) -> (r: &mut [i64; 4]) {
        &mut self.data[index]
    }
}

impl IndexUnchecked<(usize, usize)> for SimdMatrix {
    type Output = [i64; 4];

    open spec fn index_valid(&self, index: (usize, usize)) -> bool {
        &&& self.wf()
        &&& index.0 < self.rows
        &&& index.1 < self.columns
    }

    open spec fn entry(&self, index: (usize, usize)) -> [i64; 4] {
        self.data@[index.0 * self.columns + index.1]
    }

    open spec fn stored(&self, next: &Self, index: (usize, usize), value: [i64; 4]) -> bool {
        &&& next.rows == self.rows
        &&& next.columns == self.columns
        &&& next.aligned == self.aligned
        &&& next.data@ == self.data@.update(index.0 * self.columns + index.1, value)
    }

    fn get_unchecked(&self, index: (usize, usize)) -> (r: &[i64; 4]) {
        proof {
            lemma_offset_in_bounds(index.0 as int, index.1 as int, self.rows as int, self.columns as int);
        }
        &self.data[index.0 * self.columns + index.1]
    }

    fn get_unchecked_mut(&mut self, index: (usize, usize)) -> (r: &mut [i64; 4]) {
        proof {
            lemma_offset_in_bounds(index.0 as int, index.1 as int, self.rows as int, self.columns as int);
        }
        &mut self.data[index.0 * self.columns + index.1]
    }
}

} // verus!
