//! Dot products visited along wrapped diagonals of the result.

use vstd::prelude::*;

use vstd::arithmetic::div_mod::{lemma_fundamental_div_mod, lemma_fundamental_div_mod_converse};

use crate::matmul::algebra::{lemma_grid_ext, product, product_fits};
use crate::matmul::matrix::standard::Matrix;
use crate::matmul::matrix::transposed::TransposedMatrix;
use crate::matmul::naive_transposed::dot;

verus! {

/// Every column `q` of a row `p` lies at some shift `t` along the wrapped
/// diagonal through `p`.
proof fn lemma_wrapped_column(p: int, q: int, columns: int) -> (t: int)
    requires
        0 <= p,
        0 <= q < columns,
    ensures
        0 <= t < columns,
        (p + t) % columns == q,
{
    lemma_fundamental_div_mod(p, columns);
    let m = p / columns;
    let r = p % columns;
    assert(p + (q - r) == m * columns + q) by (nonlinear_arith)
        requires p == columns * m + r;
    assert(p + (q + columns - r) == (m + 1) * columns + q) by (nonlinear_arith)
        requires p == columns * m + r;
    if q >= r {
        lemma_fundamental_div_mod_converse(p + (q - r), columns, m, q);
        q - r
    } else {
        lemma_fundamental_div_mod_converse(p + (q + columns - r), columns, m + 1, q);
        q + columns - r
    }
}

/// `C = A * B`, visited one wrapped diagonal at a time: at shift `s`, row
/// `i` of `A` meets column `(i + s) % columns` of `B`. Each entry is one dot
/// product summed in increasing order of the inner index.
#[allow(non_snake_case)]
pub fn mult(A: &Matrix, B: &TransposedMatrix, C: &mut Matrix)
    requires
        A.wf(),
        B.wf(),
        old(C).wf(),
        A.columns == B.rows,
        A.rows == old(C).rows,
        B.columns == old(C).columns,
        product_fits(A@, B@, B.columns as nat),
    ensures
        final(C).wf(),
        final(C).rows == old(C).rows,
        final(C).columns == old(C).columns,
        final(C).aligned == old(C).aligned,
        final(C)@ == product(A@, B@, B.columns as nat),
{
    let ghost prod = product(A@, B@, B.columns as nat);
    let rows = C.rows;
    let columns = C.columns;
    let mut s: usize = 0;
    while s < columns
        invariant
            A.wf(), B.wf(), C.wf(),
            A.columns == B.rows,
            rows == A.rows, rows == C.rows,
            columns == B.columns, columns == C.columns,
            C.aligned == old(C).aligned,
            prod == product(A@, B@, columns as nat),
            product_fits(A@, B@, columns as nat),
            0 <= s <= columns,
            forall|p: int, t: int| 0 <= p < rows && 0 <= t < s
                ==> #[trigger] C@[p][(p + t) % (columns as int)] == prod[p][(p + t) % (columns as int)],
        decreases columns - s,
    {
        let mut i: usize = 0;
        while i < rows
            invariant
                A.wf(), B.wf(), C.wf(),
                A.columns == B.rows,
                rows == A.rows, rows == C.rows,
                columns == B.columns, columns == C.columns,
                C.aligned == old(C).aligned,
                prod == product(A@, B@, columns as nat),
                product_fits(A@, B@, columns as nat),
                0 <= s < columns,
                0 <= i <= rows,
                forall|p: int, t: int| 0 <= p < rows && 0 <= t < columns && (t < s || (t == s && p < i))
                    ==> #[trigger] C@[p][(p + t) % (columns as int)] == prod[p][(p + t) % (columns as int)],
            decreases rows - i,
        {
            let r = i % columns;
            let j = if r < columns - s { r + s } else { r - (columns - s) };
            proof {
                vstd::arithmetic::div_mod::lemma_add_mod_noop(i as int, s as int, columns as int);
                vstd::arithmetic::div_mod::lemma_small_mod(s as nat, columns as nat);
                if r < columns - s {
                    vstd::arithmetic::div_mod::lemma_small_mod((r + s) as nat, columns as nat);
                } else {
                    lemma_fundamental_div_mod_converse(r + s, columns as int, 1, j as int);
                }
            }
            assert(j == (i + s) % (columns as int));
            let v = dot(A, B, i, j);
            C.set(i, j, v);
            i = i + 1;
        }
        s = s + 1;
    }
    proof {
        assert forall|p: int, q: int| 0 <= p < rows && 0 <= q < columns implies #[trigger] C@[p][q] == prod[p][q] by {
            let t = lemma_wrapped_column(p, q, columns as int);
            assert(C@[p][(p + t) % (columns as int)] == prod[p][(p + t) % (columns as int)]);
        }
        lemma_grid_ext(C@, prod, rows as nat, columns as nat);
    }
}

} // verus!
