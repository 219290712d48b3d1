//! The tiling engine with the rows of blocks of the result handed to parallel
//! workers; each worker writes only the blocks of its own row.

use vstd::prelude::*;

use rayon::iter::{IndexedParallelIterator, ParallelIterator};
use rayon::slice::ParallelSliceMut;

use crate::matmul::algebra::{accumulation_fits, partial, plus, product};
use crate::matmul::matrix::standard::Matrix;
use crate::matmul::matrix::tiled::{lemma_block_coordinates, TileMatrix};
use crate::matmul::tiled::{block_fits, lemma_block_fits, lemma_blocks_done, tile_product, tiles_compatible};

verus! {

/// Whether `A` and `B` have matching grids of blocks shaped for the
/// lane-group kernel.
#[allow(non_snake_case)]
pub open spec fn operands_ready(A: TileMatrix, B: TileMatrix) -> bool {
    &&& A.wf()
    &&& B.wf()
    &&& A.blocks_right == B.blocks_down
    &&& A.block_columns == B.block_rows
    &&& A.block_rows % 4 == 0
    &&& A.block_columns % 4 == 0
    &&& B.block_columns % 4 == 0
}

/// Whether `row` can be block row `bi` of the result: one well-formed block
/// per block column of `B`, each within the overflow bound.
#[allow(non_snake_case)]
pub open spec fn block_row_ready(A: TileMatrix, B: TileMatrix, bi: int, row: Seq<Matrix>) -> bool {
    &&& row.len() == B.blocks_right
    &&& forall|j: int| 0 <= j < row.len() ==> {
        &&& (#[trigger] row[j]).wf()
        &&& row[j].rows == A.block_rows
        &&& row[j].columns == B.block_columns
        &&& block_fits(A, B, bi, j, row[j]@)
    }
}

/// Whether `after` is block row `bi` of `before + A * B`.
#[allow(non_snake_case)]
pub open spec fn block_row_done(A: TileMatrix, B: TileMatrix, bi: int, before: Seq<Matrix>, after: Seq<Matrix>) -> bool {
    &&& after.len() == before.len()
    &&& forall|j: int| 0 <= j < after.len() ==> {
        &&& (#[trigger] after[j]).wf()
        &&& after[j].rows == before[j].rows
        &&& after[j].columns == before[j].columns
        &&& forall|p: int, q: int| 0 <= p < A.block_rows && 0 <= q < B.block_columns ==> #[trigger] after[j]@[p][q]
            == before[j]@[p][q] + partial(
                A.padded(),
                B.padded(),
                bi * A.block_rows + p,
                j * B.block_columns + q,
                A.padded_columns(),
            )
    }
}

/// One worker: adds to each block `(bi, j)` of the result, given as `row`,
/// the block products `A(bi, k) * B(k, j)` in increasing order of `k`.
#[allow(non_snake_case)]
pub fn block_row(A: &TileMatrix, B: &TileMatrix, bi: usize, row: &mut [Matrix])
    requires
        operands_ready(*A, *B),
        bi < A.blocks_down,
        block_row_ready(*A, *B, bi as int, old(row)@),
    ensures
        block_row_done(*A, *B, bi as int, old(row)@, final(row)@),
{
    let n = row.len();
    let mut j: usize = 0;
    while j < n
        invariant
            operands_ready(*A, *B),
            bi < A.blocks_down,
            block_row_ready(*A, *B, bi as int, old(row)@),
            n == row@.len(),
            n == old(row)@.len(),
            0 <= j <= n,
            forall|s: int| j <= s < n ==> #[trigger] row@[s] == old(row)@[s],
            forall|s: int| 0 <= s < j ==> {
                &&& (#[trigger] row@[s]).wf()
                &&& row@[s].rows == old(row)@[s].rows
                &&& row@[s].columns == old(row)@[s].columns
                &&& forall|p: int, q: int| 0 <= p < A.block_rows && 0 <= q < B.block_columns ==> #[trigger] row@[s]@[p][q]
                    == old(row)@[s]@[p][q] + partial(
                        A.padded(),
                        B.padded(),
                        bi * A.block_rows + p,
                        s * B.block_columns + q,
                        A.padded_columns(),
                    )
            },
        decreases n - j,
    {
        assert(row@[j as int] == old(row)@[j as int]);
        tile_product(A, B, bi, j, &mut row[j]);
        j = j + 1;
    }
}

/// Relies on rayon's `par_chunks_mut` with `enumerate`: `data` is cut into
/// consecutive disjoint chunks of `width` blocks, and chunk `r` is handed to
/// `block_row` as block row `r`, each chunk once; the call returns when every
/// worker has finished.
#[verifier::external_body]
#[allow(non_snake_case)]
fn par_block_rows(A: &TileMatrix, B: &TileMatrix, data: &mut Vec<Matrix>, width: usize)
    requires
        operands_ready(*A, *B),
        width == B.blocks_right,
        width > 0,
        old(data)@.len() == A.blocks_down * width,
        forall|r: int| 0 <= r < A.blocks_down ==> #[trigger] block_row_ready(
            *A,
            *B,
            r,
            old(data)@.subrange(r * width, r * width + width),
        ),
    ensures
        final(data)@.len() == old(data)@.len(),
        forall|r: int| 0 <= r < A.blocks_down ==> #[trigger] block_row_done(
            *A,
            *B,
            r,
            old(data)@.subrange(r * width, r * width + width),
            final(data)@.subrange(r * width, r * width + width),
        ),
{
    data.par_chunks_mut(width).enumerate().for_each(|(bi, row)| block_row(A, B, bi, row));
}

/// `C += A * B` on tiled matrices, one parallel worker per row of blocks of
/// `C`. The rows are disjoint, so the workers share nothing they write.
#[allow(non_snake_case)]
pub fn mult(A: &TileMatrix, B: &TileMatrix, C: &mut TileMatrix)
    requires
        A.wf(),
        B.wf(),
        old(C).wf(),
        A.columns == B.rows,
        A.rows == old(C).rows,
        B.columns == old(C).columns,
        tiles_compatible(*A, *B, *old(C)),
        accumulation_fits(old(C)@, A@, B@),
    ensures
        final(C).wf(),
        final(C).rows == old(C).rows,
        final(C).columns == old(C).columns,
        final(C).blocks_right == old(C).blocks_right,
        final(C).blocks_down == old(C).blocks_down,
        final(C).block_rows == old(C).block_rows,
        final(C).block_columns == old(C).block_columns,
        final(C)@ == plus(old(C)@, product(A@, B@, B.columns as nat)),
{
    let ghost c0 = *C;
    let width = C.blocks_right;
    if width == 0 || C.blocks_down == 0 {
        proof {
            lemma_blocks_done(*A, *B, c0, *C);
        }
        return;
    }
    let ghost w = width as int;
    proof {
        vstd::arithmetic::mul::lemma_mul_is_commutative(w, C.blocks_down as int);
        assert forall|r: int| 0 <= r < A.blocks_down implies #[trigger] block_row_ready(
            *A,
            *B,
            r,
            c0.data@.subrange(r * w, r * w + w),
        ) by {
            assert(0 <= r * w && r * w + w <= w * c0.blocks_down) by (nonlinear_arith)
                requires 0 <= r < c0.blocks_down, 0 <= w;
            assert(c0.data@.subrange(r * w, r * w + w).len() == w);
            assert forall|j: int| 0 <= j < w implies {
                &&& (#[trigger] c0.data@.subrange(r * w, r * w + w)[j]).wf()
                &&& c0.data@.subrange(r * w, r * w + w)[j].rows == A.block_rows
                &&& c0.data@.subrange(r * w, r * w + w)[j].columns == B.block_columns
                &&& block_fits(*A, *B, r, j, c0.data@.subrange(r * w, r * w + w)[j]@)
            } by {
                assert(0 <= r * w + j < w * c0.blocks_down) by (nonlinear_arith)
                    requires 0 <= r < c0.blocks_down, 0 <= j < w;
                assert(r * w + w <= w * c0.blocks_down) by (nonlinear_arith)
                    requires 0 <= r < c0.blocks_down, 0 <= w;
                lemma_block_fits(*A, *B, c0, r, j);
            }
        }
    }
    par_block_rows(A, B, &mut C.data, width);
    proof {
        assert forall|t: int, p: int, q: int| 0 <= t < C.data@.len() && 0 <= p < c0.block_rows && 0 <= q < c0.block_columns
            implies #[trigger] C.data@[t]@[p][q] == c0.data@[t]@[p][q] + partial(
                A.padded(),
                B.padded(),
                (t / w) * c0.block_rows + p,
                (t % w) * c0.block_columns + q,
                A.padded_columns(),
            ) by {
            let r = t / w;
            let j = t % w;
            vstd::arithmetic::div_mod::lemma_fundamental_div_mod(t, w);
            assert(0 <= r < c0.blocks_down) by (nonlinear_arith)
                requires t == w * r + j, 0 <= j < w, 0 <= t < w * c0.blocks_down, w > 0;
            assert(r * w + w <= w * c0.blocks_down) by (nonlinear_arith)
                requires 0 <= r < c0.blocks_down, 0 <= w;
            assert(block_row_done(*A, *B, r, c0.data@.subrange(r * w, r * w + w), C.data@.subrange(r * w, r * w + w)));
            assert(C.data@.subrange(r * w, r * w + w)[j] == C.data@[t]);
            assert(c0.data@.subrange(r * w, r * w + w)[j] == c0.data@[t]);
        }
        assert forall|t: int| 0 <= t < C.data@.len() implies {
            &&& (#[trigger] C.data@[t]).wf()
            &&& C.data@[t].rows == c0.block_rows
            &&& C.data@[t].columns == c0.block_columns
        } by {
            let r = t / w;
            let j = t % w;
            vstd::arithmetic::div_mod::lemma_fundamental_div_mod(t, w);
            assert(0 <= r < c0.blocks_down) by (nonlinear_arith)
                requires t == w * r + j, 0 <= j < w, 0 <= t < w * c0.blocks_down, w > 0;
            assert(r * w + w <= w * c0.blocks_down) by (nonlinear_arith)
                requires 0 <= r < c0.blocks_down, 0 <= w;
            assert(block_row_done(*A, *B, r, c0.data@.subrange(r * w, r * w + w), C.data@.subrange(r * w, r * w + w)));
            assert(C.data@.subrange(r * w, r * w + w)[j] == C.data@[t]);
            assert(c0.data@.subrange(r * w, r * w + w)[j] == c0.data@[t]);
        }
        lemma_blocks_done(*A, *B, c0, *C);
    }
}

} // verus!
