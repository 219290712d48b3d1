//! The correctness baseline: a checked triple loop in i-j-k order.

use vstd::prelude::*;

use crate::matmul::algebra::{accumulation_fits, before, lemma_grid_ext, partial, product, product_fits, step_fits, zeros};
use crate::matmul::matrix::standard::Matrix;

verus! {

/// `C = A * B`: `C` is zeroed, then each entry is summed over the inner index
/// in increasing order.
#[allow(non_snake_case)]
pub fn mult(A: &Matrix, B: &Matrix, C: &mut Matrix)
    requires
        A.wf(),
        B.wf(),
        old(C).wf(),
        A.columns == B.rows,
        A.rows == old(C).rows,
        B.columns == old(C).columns,
        product_fits(A@, B@, B.columns as nat),
    ensures
        final(C).wf(),
        final(C).rows == old(C).rows,
        final(C).columns == old(C).columns,
        final(C).aligned == old(C).aligned,
        final(C)@ == product(A@, B@, B.columns as nat),
{
    C.reset();
    let ghost z = zeros(C.rows as nat, C.columns as nat);
    let ghost prod = product(A@, B@, B.columns as nat);
    let rows = C.rows;
    let columns = C.columns;
    let inner = A.columns;
    let mut i: usize = 0;
    while i < rows
        invariant
            A.wf(), B.wf(), C.wf(),
            inner == A.columns, inner == B.rows,
            rows == A.rows, rows == C.rows,
            columns == B.columns, columns == C.columns,
            C.aligned == old(C).aligned,
            z == zeros(rows as nat, columns as nat),
            prod == product(A@, B@, columns as nat),
            accumulation_fits(z, A@, B@),
            0 <= i <= rows,
            forall|p: int, q: int| 0 <= p < rows && 0 <= q < columns
                ==> #[trigger] C@[p][q] == if p < i { prod[p][q] } else { 0 },
        decreases rows - i,
    {
        let mut j: usize = 0;
        while j < columns
            invariant
                A.wf(), B.wf(), C.wf(),
                inner == A.columns, inner == B.rows,
                rows == A.rows, rows == C.rows,
                columns == B.columns, columns == C.columns,
                C.aligned == old(C).aligned,
                z == zeros(rows as nat, columns as nat),
                prod == product(A@, B@, columns as nat),
                accumulation_fits(z, A@, B@),
                0 <= i < rows,
                0 <= j <= columns,
                forall|p: int, q: int| 0 <= p < rows && 0 <= q < columns
                    ==> #[trigger] C@[p][q] == if before(p, q, i as int, j as int) { prod[p][q] } else { 0 },
            decreases columns - j,
        {
            let mut k: usize = 0;
            while k < inner
                invariant
                    A.wf(), B.wf(), C.wf(),
                    inner == A.columns, inner == B.rows,
                    rows == A.rows, rows == C.rows,
                    columns == B.columns, columns == C.columns,
                    C.aligned == old(C).aligned,
                    z == zeros(rows as nat, columns as nat),
                    prod == product(A@, B@, columns as nat),
                    accumulation_fits(z, A@, B@),
                    0 <= i < rows,
                    0 <= j < columns,
                    0 <= k <= inner,
                    forall|p: int, q: int| 0 <= p < rows && 0 <= q < columns
                        ==> #[trigger] C@[p][q] == if before(p, q, i as int, j as int) {
                            prod[p][q]
                        } else if p == i && q == j {
                            partial(A@, B@, p, q, k as nat)
                        } else {
                            0
                        },
                decreases inner - k,
            {
                proof {
                    assert(step_fits(z, A@, B@, i as int, j as int, k as int));
                }
                let v = C.get(i, j) + A.get(i, k) * B.get(k, j);
                C.set(i, j, v);
                k = k + 1;
            }
            j = j + 1;
        }
        i = i + 1;
    }
    proof {
        lemma_grid_ext(C@, prod, rows as nat, columns as nat);
    }
}

} // verus!
