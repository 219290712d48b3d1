//! Row-times-column dot products with the right operand stored column-major.

use vstd::prelude::*;

use crate::matmul::algebra::{before, lemma_grid_ext, partial, product, product_fits, step_fits, zeros};
use crate::matmul::matrix::standard::Matrix;
use crate::matmul::matrix::transposed::TransposedMatrix;
use crate::matmul::matrix::traits::IndexUnchecked;

verus! {

/// Entry `(i, j)` of `A * B`: the dot product of row `i` of `A` and column
/// `j` of `B`, summed in increasing order of the inner index.
#[allow(non_snake_case)]
pub(crate) fn dot(A: &Matrix, B: &TransposedMatrix, i: usize, j: usize) -> (r: i64)
    requires
        A.wf(),
        B.wf(),
        A.columns == B.rows,
        i < A.rows,
        j < B.columns,
        product_fits(A@, B@, B.columns as nat),
    ensures
        r == partial(A@, B@, i as int, j as int, A.columns as nat),
{
    let ghost z = zeros(A.rows as nat, B.columns as nat);
    let inner = A.columns;
    let mut tmp: i64 = 0;
    let mut k: usize = 0;
    while k < inner
        invariant
            A.wf(), B.wf(),
            inner == A.columns, inner == B.rows,
            z == zeros(A.rows as nat, B.columns as nat),
            product_fits(A@, B@, B.columns as nat),
            i < A.rows,
            j < B.columns,
            0 <= k <= inner,
            tmp == partial(A@, B@, i as int, j as int, k as nat),
        decreases inner - k,
    {
        proof {
            assert(step_fits(z, A@, B@, i as int, j as int, k as int));
        }
        let a = *A.get_unchecked((i, k));
        let b = *B.get_unchecked((k, j));
        assert(a == A@[i as int][k as int]);
        assert(b == B@[k as int][j as int]);
        tmp = tmp + a * b;
        k = k + 1;
    }
    tmp
}

/// `C = A * B`: each entry is the dot product of a row of `A` and a column of
/// `B`, both contiguous, summed in a register in increasing order of the
/// inner index and written once.
#[allow(non_snake_case)]
pub fn mult(A: &Matrix, B: &TransposedMatrix, C: &mut Matrix)
    requires
        A.wf(),
        B.wf(),
        old(C).wf(),
        A.columns == B.rows,
        A.rows == old(C).rows,
        B.columns == old(C).columns,
        product_fits(A@, B@, B.columns as nat),
    ensures
        final(C).wf(),
        final(C).rows == old(C).rows,
        final(C).columns == old(C).columns,
        final(C).aligned == old(C).aligned,
        final(C)@ == product(A@, B@, B.columns as nat),
{
    let ghost c0 = C@;
    let ghost z = zeros(C.rows as nat, C.columns as nat);
    let ghost prod = product(A@, B@, B.columns as nat);
    let rows = C.rows;
    let columns = C.columns;
    let inner = A.columns;
    let mut i: usize = 0;
    while i < rows
        invariant
            A.wf(), B.wf(), C.wf(),
            inner == A.columns, inner == B.rows,
            rows == A.rows, rows == C.rows,
            columns == B.columns, columns == C.columns,
            C.aligned == old(C).aligned,
            c0 == old(C)@, old(C).rows == rows, old(C).columns == columns,
            z == zeros(rows as nat, columns as nat),
            prod == product(A@, B@, columns as nat),
            product_fits(A@, B@, columns as nat),
            0 <= i <= rows,
            forall|p: int, q: int| 0 <= p < rows && 0 <= q < columns
                ==> #[trigger] C@[p][q] == if p < i { prod[p][q] } else { c0[p][q] },
        decreases rows - i,
    {
        let mut j: usize = 0;
        while j < columns
            invariant
                A.wf(), B.wf(), C.wf(),
                inner == A.columns, inner == B.rows,
                rows == A.rows, rows == C.rows,
                columns == B.columns, columns == C.columns,
                C.aligned == old(C).aligned,
                c0 == old(C)@, old(C).rows == rows, old(C).columns == columns,
                z == zeros(rows as nat, columns as nat),
                prod == product(A@, B@, columns as nat),
                product_fits(A@, B@, columns as nat),
                0 <= i < rows,
                0 <= j <= columns,
                forall|p: int, q: int| 0 <= p < rows && 0 <= q < columns
                    ==> #[trigger] C@[p][q] == if before(p, q, i as int, j as int) { prod[p][q] } else { c0[p][q] },
            decreases columns - j,
        {
            let tmp = dot(A, B, i, j);
            C.set(i, j, tmp);
            j = j + 1;
        }
        i = i + 1;
    }
    proof {
        lemma_grid_ext(C@, prod, rows as nat, columns as nat);
    }
}

} // verus!
