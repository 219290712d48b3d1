//! A 2x2 register-blocked kernel over a row-major and a column-major operand.

use vstd::prelude::*;

use crate::matmul::algebra::{accumulation_fits, lemma_grid_ext, partial, plus, product, step_fits};
use crate::matmul::matrix::standard::Matrix;
use crate::matmul::matrix::transposed::TransposedMatrix;

verus! {

/// Whether entry `(p, q)` lies in a 2x2 block that comes before the block at
/// `(i, j)`, with `i` and `j` even.
pub open spec fn block_before(p: int, q: int, i: int, j: int) -> bool {
    p < i || (p < i + 2 && q < j)
}

/// `C += A * B`, two rows by two columns at a time: four running sums are kept
/// in registers over the whole inner index and written back once per block.
/// Each entry still receives its terms in increasing order of the inner index.
#[allow(non_snake_case)]
pub fn mult(A: &Matrix, B: &TransposedMatrix, C: &mut Matrix)
    requires
        A.wf(),
        B.wf(),
        old(C).wf(),
        A.columns == B.rows,
        A.rows == old(C).rows,
        B.columns == old(C).columns,
        A.columns % 2 == 0,
        A.rows % 2 == 0,
        B.columns % 2 == 0,
        accumulation_fits(old(C)@, A@, B@),
    ensures
        final(C).wf(),
        final(C).rows == old(C).rows,
        final(C).columns == old(C).columns,
        final(C).aligned == old(C).aligned,
        final(C)@ == plus(old(C)@, product(A@, B@, B.columns as nat)),
{
    let ghost c0 = C@;
    let ghost prod = product(A@, B@, B.columns as nat);
    let rows = C.rows;
    let columns = C.columns;
    let inner = A.columns;
    let mut i: usize = 0;
    while i < rows
        invariant
            A.wf(), B.wf(), C.wf(),
            inner == A.columns, inner == B.rows,
            rows == A.rows, rows == C.rows, rows % 2 == 0,
            columns == B.columns, columns == C.columns, columns % 2 == 0,
            C.aligned == old(C).aligned,
            c0 == old(C)@, old(C).rows == rows, old(C).columns == columns,
            prod == product(A@, B@, columns as nat),
            accumulation_fits(c0, A@, B@),
            0 <= i <= rows, i % 2 == 0,
            forall|p: int, q: int| 0 <= p < rows && 0 <= q < columns
                ==> #[trigger] C@[p][q] == if p < i { c0[p][q] + prod[p][q] } else { c0[p][q] },
        decreases rows - i,
    {
        let mut j: usize = 0;
        while j < columns
            invariant
                A.wf(), B.wf(), C.wf(),
                inner == A.columns, inner == B.rows,
                rows == A.rows, rows == C.rows, rows % 2 == 0,
                columns == B.columns, columns == C.columns, columns % 2 == 0,
                C.aligned == old(C).aligned,
                c0 == old(C)@, old(C).rows == rows, old(C).columns == columns,
                prod == product(A@, B@, columns as nat),
                accumulation_fits(c0, A@, B@),
                0 <= i < rows, i % 2 == 0,
                0 <= j <= columns, j % 2 == 0,
                forall|p: int, q: int| 0 <= p < rows && 0 <= q < columns
                    ==> #[trigger] C@[p][q] == if block_before(p, q, i as int, j as int) {
                        c0[p][q] + prod[p][q]
                    } else {
                        c0[p][q]
                    },
            decreases columns - j,
        {
            let mut result1 = C.get(i, j);
            let mut result2 = C.get(i + 1, j);
            let mut result3 = C.get(i, j + 1);
            let mut result4 = C.get(i + 1, j + 1);
            let mut k: usize = 0;
            while k < inner
                invariant
                    A.wf(), B.wf(),
                    inner == A.columns, inner == B.rows,
                    rows == A.rows, columns == B.columns,
                    c0 == old(C)@, old(C).rows == rows, old(C).columns == columns,
                    accumulation_fits(c0, A@, B@),
                    0 <= i, i + 2 <= rows,
                    0 <= j, j + 2 <= columns,
                    0 <= k <= inner,
                    result1 == c0[i as int][j as int] + partial(A@, B@, i as int, j as int, k as nat),
                    result2 == c0[i + 1][j as int] + partial(A@, B@, i + 1, j as int, k as nat),
                    result3 == c0[i as int][j + 1] + partial(A@, B@, i as int, j + 1, k as nat),
                    result4 == c0[i + 1][j + 1] + partial(A@, B@, i + 1, j + 1, k as nat),
                decreases inner - k,
            {
                proof {
                    assert(step_fits(c0, A@, B@, i as int, j as int, k as int));
                    assert(step_fits(c0, A@, B@, i + 1, j as int, k as int));
                    assert(step_fits(c0, A@, B@, i as int, j + 1, k as int));
                    assert(step_fits(c0, A@, B@, i + 1, j + 1, k as int));
                }
                result1 = result1 + A.get(i, k) * B.get(k, j);
                result2 = result2 + A.get(i + 1, k) * B.get(k, j);
                result3 = result3 + A.get(i, k) * B.get(k, j + 1);
                result4 = result4 + A.get(i + 1, k) * B.get(k, j + 1);
                k = k + 1;
            }
            C.set(i, j, result1);
            C.set(i + 1, j, result2);
            C.set(i, j + 1, result3);
            C.set(i + 1, j + 1, result4);
            j = j + 2;
        }
        i = i + 2;
    }
    proof {
        lemma_grid_ext(C@, plus(c0, prod), rows as nat, columns as nat);
    }
}

} // verus!
