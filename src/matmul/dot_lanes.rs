//! Dot products over four lanes of the inner index, one parallel worker per
//! row of the result.

use vstd::prelude::*;

use rayon::iter::{IndexedParallelIterator, ParallelIterator};
use rayon::slice::ParallelSliceMut;

use crate::matmul::algebra::{fits, lemma_grid_ext, partial, product, product_fits, step_fits, zeros};
use crate::matmul::matrix::standard::Matrix;
use crate::matmul::matrix::transposed::TransposedMatrix;

verus! {

/// The bound on one lane after `c` chunks: each term is an `i64` product.
pub open spec fn lane_bound(c: int) -> int {
    c * 0x8000_0000_0000_0000
}

/// Whether `A` and `B` are lane-packed operands with matching inner size and
/// every running dot product of their product fits in an `i64`.
#[allow(non_snake_case)]
pub open spec fn dot_operands(A: Matrix, B: TransposedMatrix) -> bool {
    &&& A.wf()
    &&& B.wf()
    &&& A.columns == B.rows
    &&& A.columns % 4 == 0
    &&& product_fits(A@, B@, B.columns as nat)
}

/// Entry `(i, j)` of `A * B`: the row of `A` and the column of `B` are walked
/// four entries at a time into four lane sums, which are added at the end.
#[allow(non_snake_case)]
fn dot_entry(A: &Matrix, B: &TransposedMatrix, i: usize, j: usize) -> (r: i64)
    requires
        dot_operands(*A, *B),
        i < A.rows,
        j < B.columns,
    ensures
        r == partial(A@, B@, i as int, j as int, A.columns as nat),
{
    let ghost z = zeros(A.rows as nat, B.columns as nat);
    let inner = A.columns;
    let mut lane0: i128 = 0;
    let mut lane1: i128 = 0;
    let mut lane2: i128 = 0;
    let mut lane3: i128 = 0;
    let mut k: usize = 0;
    proof {
        assert(inner <= usize::MAX);
    }
    while k < inner
        invariant
            dot_operands(*A, *B),
            z == zeros(A.rows as nat, B.columns as nat),
            inner == A.columns,
            i < A.rows,
            j < B.columns,
            0 <= k <= inner,
            k % 4 == 0,
            inner <= usize::MAX,
            lane0 + lane1 + lane2 + lane3 == partial(A@, B@, i as int, j as int, k as nat),
            -lane_bound(k as int / 4) <= lane0 <= lane_bound(k as int / 4),
            -lane_bound(k as int / 4) <= lane1 <= lane_bound(k as int / 4),
            -lane_bound(k as int / 4) <= lane2 <= lane_bound(k as int / 4),
            -lane_bound(k as int / 4) <= lane3 <= lane_bound(k as int / 4),
        decreases inner - k,
    {
        proof {
            assert(step_fits(z, A@, B@, i as int, j as int, k as int));
            assert(step_fits(z, A@, B@, i as int, j as int, k + 1));
            assert(step_fits(z, A@, B@, i as int, j as int, k + 2));
            assert(step_fits(z, A@, B@, i as int, j as int, k + 3));
            assert(lane_bound(k as int / 4 + 1) <= lane_bound(0x4000_0000_0000_0000)) by (nonlinear_arith)
                requires k as int / 4 + 1 <= 0x4000_0000_0000_0000;
            assert(lane_bound(k as int / 4 + 1) == lane_bound(k as int / 4) + 0x8000_0000_0000_0000) by (nonlinear_arith);
            assert((k + 4) / 4 == k / 4 + 1);
        }
        let p0 = A.get(i, k) as i128 * B.get(k, j) as i128;
        let p1 = A.get(i, k + 1) as i128 * B.get(k + 1, j) as i128;
        let p2 = A.get(i, k + 2) as i128 * B.get(k + 2, j) as i128;
        let p3 = A.get(i, k + 3) as i128 * B.get(k + 3, j) as i128;
        lane0 = lane0 + p0;
        lane1 = lane1 + p1;
        lane2 = lane2 + p2;
        lane3 = lane3 + p3;
        k = k + 4;
    }
    proof {
        if inner > 0 {
            assert(step_fits(z, A@, B@, i as int, j as int, inner - 1));
        }
    }
    (lane0 + lane1 + lane2 + lane3) as i64
}

/// Whether `row` holds row `i` of `A * B`.
#[allow(non_snake_case)]
pub open spec fn row_done(A: Matrix, B: TransposedMatrix, i: int, row: Seq<i64>) -> bool {
    &&& row.len() == B.columns
    &&& forall|j: int| 0 <= j < row.len() ==> #[trigger] row[j] == partial(A@, B@, i, j, A.columns as nat)
}

/// One worker: row `i` of `A * B`, written into `row`.
#[allow(non_snake_case)]
pub fn dot_row(A: &Matrix, B: &TransposedMatrix, i: usize, row: &mut [i64])
    requires
        dot_operands(*A, *B),
        i < A.rows,
        old(row)@.len() == B.columns,
    ensures
        row_done(*A, *B, i as int, final(row)@),
{
    let n = row.len();
    let mut j: usize = 0;
    while j < n
        invariant
            dot_operands(*A, *B),
            i < A.rows,
            n == B.columns,
            n == row@.len(),
            0 <= j <= n,
            forall|s: int| 0 <= s < j ==> #[trigger] row@[s] == partial(A@, B@, i as int, s, A.columns as nat),
        decreases n - j,
    {
        row[j] = dot_entry(A, B, i, j);
        j = j + 1;
    }
}

/// Relies on rayon's `par_chunks_mut` with `enumerate`: `data` is cut into
/// consecutive disjoint rows of `width` entries, and row `r` is handed to
/// `dot_row`, each row once; the call returns when every worker has finished.
#[verifier::external_body]
#[allow(non_snake_case)]
fn par_dot_rows(A: &Matrix, B: &TransposedMatrix, data: &mut Vec<i64>, width: usize)
    requires
        dot_operands(*A, *B),
        width == B.columns,
        width > 0,
        old(data)@.len() == A.rows * width,
    ensures
        final(data)@.len() == old(data)@.len(),
        forall|r: int| 0 <= r < A.rows ==> #[trigger] row_done(*A, *B, r, final(data)@.subrange(r * width, r * width + width)),
{
    data.par_chunks_mut(width).enumerate().for_each(|(i, row)| dot_row(A, B, i, row));
}

/// `C = A * B` with `B` column-major: each entry is a four-lane dot product
/// of a row of `A` and a column of `B`, and the rows of `C` are computed by
/// parallel workers. All three matrices must be lane-packed.
#[allow(non_snake_case)]
pub fn mult(A: &Matrix, B: &TransposedMatrix, C: &mut Matrix)
    requires
        A.wf(),
        B.wf(),
        old(C).wf(),
        A.columns == B.rows,
        A.rows == old(C).rows,
        B.columns == old(C).columns,
        old(C).rows % 4 == 0,
        A.columns % 4 == 0,
        old(C).columns % 4 == 0,
        A.aligned,
        B.aligned,
        old(C).aligned,
        product_fits(A@, B@, B.columns as nat),
    ensures
        final(C).wf(),
        final(C).rows == old(C).rows,
        final(C).columns == old(C).columns,
        final(C).aligned == old(C).aligned,
        final(C)@ == product(A@, B@, B.columns as nat),
{
    let width = C.columns;
    let ghost rows = C.rows as int;
    let ghost w = width as int;
    if width > 0 {
        par_dot_rows(A, B, &mut C.data, width);
    }
    proof {
        let prod = product(A@, B@, B.columns as nat);
        assert forall|p: int, q: int| 0 <= p < rows && 0 <= q < w implies #[trigger] C@[p][q] == prod[p][q] by {
            assert(0 <= p * w && p * w + w <= rows * w) by (nonlinear_arith)
                requires 0 <= p < rows, 0 <= w;
            assert(row_done(*A, *B, p, C.data@.subrange(p * w, p * w + w)));
            assert(C.data@.subrange(p * w, p * w + w)[q] == C.data@[p * w + q]);
        }
        lemma_grid_ext(C@, prod, rows as nat, w as nat);
    }
}

} // verus!
