//! The loop nest reordered to i-k-j, with the innermost loop unrolled by four.

use vstd::prelude::*;

use crate::matmul::algebra::{accumulation_fits, fits, lemma_grid_ext, partial, plus, product, step_fits};
use crate::matmul::matrix::standard::{lemma_store, Matrix};
use crate::matmul::matrix::traits::IndexUnchecked;

verus! {

/// `C[i][q] += a * B[k][q]`, with `a` the entry `A[i][k]` already read.
#[allow(non_snake_case)]
pub(crate) fn add_scaled_entry(a: i64, B: &Matrix, C: &mut Matrix, i: usize, k: usize, q: usize)
    requires
        B.wf(),
        old(C).wf(),
        i < old(C).rows,
        k < B.rows,
        q < B.columns,
        B.columns == old(C).columns,
        fits(a * B@[k as int][q as int]),
        fits(old(C)@[i as int][q as int] + a * B@[k as int][q as int]),
    ensures
        final(C).wf(),
        final(C).rows == old(C).rows,
        final(C).columns == old(C).columns,
        final(C).aligned == old(C).aligned,
        final(C)@ == old(C)@.update(
            i as int,
            old(C)@[i as int].update(q as int, old(C)@[i as int][q as int] + a * B@[k as int][q as int]),
        ),
{
    let b = *B.get_unchecked((k, q));
    let c = *C.get_unchecked((i, q));
    assert(b == B@[k as int][q as int]);
    assert(c == C@[i as int][q as int]);
    let v = c + a * b;
    let ghost prev = *C;
    *C.get_unchecked_mut((i, q)) = v;
    proof {
        lemma_store(prev, *C, i as int, q as int, v);
    }
}

/// `C += A * B` in i-k-j order: `A[i][k]` is read once per row of `B`, and
/// the row of `C` is updated four entries at a time. Each entry of `C` still
/// receives the terms of its sum in increasing order of the inner index.
#[allow(non_snake_case)]
pub fn mult(A: &Matrix, B: &Matrix, C: &mut Matrix)
    requires
        A.wf(),
        B.wf(),
        old(C).wf(),
        A.columns == B.rows,
        A.rows == old(C).rows,
        B.columns == old(C).columns,
        old(C).columns % 4 == 0,
        accumulation_fits(old(C)@, A@, B@),
    ensures
        final(C).wf(),
        final(C).rows == old(C).rows,
        final(C).columns == old(C).columns,
        final(C).aligned == old(C).aligned,
        final(C)@ == plus(old(C)@, product(A@, B@, B.columns as nat)),
{
    let ghost c0 = C@;
    let ghost prod = product(A@, B@, B.columns as nat);
    let rows = C.rows;
    let columns = C.columns;
    let inner = A.columns;
    let mut i: usize = 0;
    while i < rows
        invariant
            A.wf(), B.wf(), C.wf(),
            inner == A.columns, inner == B.rows,
            rows == A.rows, rows == C.rows,
            columns == B.columns, columns == C.columns, columns % 4 == 0,
            C.aligned == old(C).aligned,
            c0 == old(C)@, old(C).rows == rows, old(C).columns == columns,
            prod == product(A@, B@, columns as nat),
            accumulation_fits(c0, A@, B@),
            0 <= i <= rows,
            forall|p: int, q: int| 0 <= p < rows && 0 <= q < columns
                ==> #[trigger] C@[p][q] == if p < i { c0[p][q] + prod[p][q] } else { c0[p][q] },
        decreases rows - i,
    {
        let mut k: usize = 0;
        while k < inner
            invariant
                A.wf(), B.wf(), C.wf(),
                inner == A.columns, inner == B.rows,
                rows == A.rows, rows == C.rows,
                columns == B.columns, columns == C.columns, columns % 4 == 0,
                C.aligned == old(C).aligned,
                c0 == old(C)@, old(C).rows == rows, old(C).columns == columns,
                prod == product(A@, B@, columns as nat),
                accumulation_fits(c0, A@, B@),
                0 <= i < rows,
                0 <= k <= inner,
                forall|p: int, q: int| 0 <= p < rows && 0 <= q < columns
                    ==> #[trigger] C@[p][q] == if p < i {
                        c0[p][q] + prod[p][q]
                    } else if p == i {
                        c0[p][q] + partial(A@, B@, p, q, k as nat)
                    } else {
                        c0[p][q]
                    },
            decreases inner - k,
        {
            let a = *A.get_unchecked((i, k));
            assert(a == A@[i as int][k as int]);
            let mut j: usize = 0;
            while j < columns / 4
                invariant
                    A.wf(), B.wf(), C.wf(),
                    inner == A.columns, inner == B.rows,
                    rows == A.rows, rows == C.rows,
                    columns == B.columns, columns == C.columns, columns % 4 == 0,
                    C.aligned == old(C).aligned,
                    c0 == old(C)@, old(C).rows == rows, old(C).columns == columns,
                    prod == product(A@, B@, columns as nat),
                    accumulation_fits(c0, A@, B@),
                    0 <= i < rows,
                    0 <= k < inner,
                    0 <= j <= columns / 4,
                    a == A@[i as int][k as int],
                    forall|p: int, q: int| 0 <= p < rows && 0 <= q < columns
                        ==> #[trigger] C@[p][q] == if p < i {
                            c0[p][q] + prod[p][q]
                        } else if p == i && q < 4 * j {
                            c0[p][q] + partial(A@, B@, p, q, (k + 1) as nat)
                        } else if p == i {
                            c0[p][q] + partial(A@, B@, p, q, k as nat)
                        } else {
                            c0[p][q]
                        },
                decreases columns / 4 - j,
            {
                proof {
                    assert(step_fits(c0, A@, B@, i as int, 4 * j as int, k as int));
                    assert(step_fits(c0, A@, B@, i as int, 4 * j + 1, k as int));
                    assert(step_fits(c0, A@, B@, i as int, 4 * j + 2, k as int));
                    assert(step_fits(c0, A@, B@, i as int, 4 * j + 3, k as int));
                }
                add_scaled_entry(a, B, C, i, k, j * 4);
                add_scaled_entry(a, B, C, i, k, j * 4 + 1);
                add_scaled_entry(a, B, C, i, k, j * 4 + 2);
                add_scaled_entry(a, B, C, i, k, j * 4 + 3);
                j = j + 1;
            }
            k = k + 1;
        }
        i = i + 1;
    }
    proof {
        lemma_grid_ext(C@, plus(c0, prod), rows as nat, columns as nat);
    }
}

} // verus!
