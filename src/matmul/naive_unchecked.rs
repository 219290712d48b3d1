//! The baseline loop nest with the bounds checks moved into the proof.

use vstd::prelude::*;

use crate::matmul::algebra::{accumulation_fits, before, lemma_grid_ext, partial, plus, product, step_fits};
use crate::matmul::matrix::standard::{lemma_store, Matrix};
use crate::matmul::matrix::traits::IndexUnchecked;

verus! {

/// `C += A * B` in i-j-k order through unchecked indexing; each entry of `C`
/// is summed over the inner index in increasing order.
#[allow(non_snake_case)]
pub fn mult(A: &Matrix, B: &Matrix, C: &mut Matrix)
    requires
        A.wf(),
        B.wf(),
        old(C).wf(),
        A.columns == B.rows,
        A.rows == old(C).rows,
        B.columns == old(C).columns,
        accumulation_fits(old(C)@, A@, B@),
    ensures
        final(C).wf(),
        final(C).rows == old(C).rows,
        final(C).columns == old(C).columns,
        final(C).aligned == old(C).aligned,
        final(C)@ == plus(old(C)@, product(A@, B@, B.columns as nat)),
{
    let ghost c0 = C@;
    let ghost prod = product(A@, B@, B.columns as nat);
    let rows = C.rows;
    let columns = C.columns;
    let inner = A.columns;
    let mut i: usize = 0;
    while i < rows
        invariant
            A.wf(), B.wf(), C.wf(),
            inner == A.columns, inner == B.rows,
            rows == A.rows, rows == C.rows,
            columns == B.columns, columns == C.columns,
            C.aligned == old(C).aligned,
            c0 == old(C)@, old(C).rows == rows, old(C).columns == columns,
            prod == product(A@, B@, columns as nat),
            accumulation_fits(c0, A@, B@),
            0 <= i <= rows,
            forall|p: int, q: int| 0 <= p < rows && 0 <= q < columns
                ==> #[trigger] C@[p][q] == if p < i { c0[p][q] + prod[p][q] } else { c0[p][q] },
        decreases rows - i,
    {
        let mut j: usize = 0;
        while j < columns
            invariant
                A.wf(), B.wf(), C.wf(),
                inner == A.columns, inner == B.rows,
                rows == A.rows, rows == C.rows,
                columns == B.columns, columns == C.columns,
                C.aligned == old(C).aligned,
                c0 == old(C)@, old(C).rows == rows, old(C).columns == columns,
                prod == product(A@, B@, columns as nat),
                accumulation_fits(c0, A@, B@),
                0 <= i < rows,
                0 <= j <= columns,
                forall|p: int, q: int| 0 <= p < rows && 0 <= q < columns
                    ==> #[trigger] C@[p][q] == if before(p, q, i as int, j as int) {
                        c0[p][q] + prod[p][q]
                    } else {
                        c0[p][q]
                    },
            decreases columns - j,
        {
            let mut k: usize = 0;
            while k < inner
                invariant
                    A.wf(), B.wf(), C.wf(),
                    inner == A.columns, inner == B.rows,
                    rows == A.rows, rows == C.rows,
                    columns == B.columns, columns == C.columns,
                    C.aligned == old(C).aligned,
                    c0 == old(C)@, old(C).rows == rows, old(C).columns == columns,
                    prod == product(A@, B@, columns as nat),
                    accumulation_fits(c0, A@, B@),
                    0 <= i < rows,
                    0 <= j < columns,
                    0 <= k <= inner,
                    forall|p: int, q: int| 0 <= p < rows && 0 <= q < columns
                        ==> #[trigger] C@[p][q] == if before(p, q, i as int, j as int) {
                            c0[p][q] + prod[p][q]
                        } else if p == i && q == j {
                            c0[p][q] + partial(A@, B@, p, q, k as nat)
                        } else {
                            c0[p][q]
                        },
                decreases inner - k,
            {
                proof {
                    assert(step_fits(c0, A@, B@, i as int, j as int, k as int));
                }
                let a = *A.get_unchecked((i, k));
                let b = *B.get_unchecked((k, j));
                let c = *C.get_unchecked((i, j));
                assert(a == A@[i as int][k as int]);
                assert(b == B@[k as int][j as int]);
                assert(c == C@[i as int][j as int]);
                let x = a * b;
                let v = c + x;
                let ghost prev = *C;
                *C.get_unchecked_mut((i, j)) = v;
                proof {
                    lemma_store(prev, *C, i as int, j as int, v);
                }
                k = k + 1;
            }
            j = j + 1;
        }
        i = i + 1;
    }
    proof {
        lemma_grid_ext(C@, plus(c0, prod), rows as nat, columns as nat);
    }
}

} // verus!
