//! The i-k-j loop nest on lane groups: one broadcast of `A[i][k]`, then a
//! fused multiply-add per group of four entries of a row.

use vstd::prelude::*;

use crate::matmul::algebra::{accumulation_fits, fits, lemma_grid_ext, partial, plus, product, product_fits, step_fits, zeros};
use crate::matmul::matrix::standard::{lemma_offset_in_bounds, Matrix};
use crate::matmul::matrix::traits::IndexUnchecked;
use crate::triades::{SimdCapable, SimdItem};

verus! {

/// `splat(a) * b + c`, lane by lane.
fn fma_lanes(a: i64, b: [i64; 4], c: [i64; 4]) -> (r: [i64; 4])
    requires
        forall|l: int| 0 <= l < 4 ==> #[trigger] fits(a * b@[l]) && fits(c@[l] + a * b@[l]),
    ensures
        forall|l: int| 0 <= l < 4 ==> #[trigger] r@[l] == c@[l] + a * b@[l],
{
    assert(fits(a * b@[0]) && fits(a * b@[1]) && fits(a * b@[2]) && fits(a * b@[3]));
    [c[0] + a * b[0], c[1] + a * b[1], c[2] + a * b[2], c[3] + a * b[3]]
}

/// An offset inside lane group `g` of row `i` belongs to an entry of that
/// group and of no other row.
proof fn lemma_offset_in_group(p: int, q: int, i: int, g: int, columns: int)
    requires
        0 <= p,
        0 <= i,
        0 <= g,
        4 * g + 4 <= columns,
        0 <= q < columns,
    ensures
        (i * columns + 4 * g <= p * columns + q < i * columns + 4 * g + 4) == (p == i && 4 * g <= q < 4 * g + 4),
{
    if p < i {
        assert(p * columns + q < i * columns) by (nonlinear_arith)
            requires p < i, 0 <= q < columns;
    } else if p > i {
        assert(p * columns + q >= i * columns + columns) by (nonlinear_arith)
            requires p > i, 0 <= q, 0 <= columns;
    }
}

/// `C[i][4g + l] += a * B[k][4g + l]` for the four lanes `l` of group `g`, as
/// one vector load of each operand, a fused multiply-add and one store.
#[allow(non_snake_case)]
fn fma_group(a: i64, B: &Matrix, C: &mut Matrix, i: usize, k: usize, g: usize)
    requires
        B.wf(),
        old(C).wf(),
        i < old(C).rows,
        k < B.rows,
        4 * g + 4 <= B.columns,
        B.columns == old(C).columns,
        forall|l: int| 0 <= l < 4 ==> #[trigger] fits(a * B@[k as int][4 * g + l])
            && fits(old(C)@[i as int][4 * g + l] + a * B@[k as int][4 * g + l]),
    ensures
        final(C).wf(),
        final(C).rows == old(C).rows,
        final(C).columns == old(C).columns,
        final(C).aligned == old(C).aligned,
        forall|p: int, q: int| 0 <= p < old(C).rows && 0 <= q < old(C).columns ==> #[trigger] final(C)@[p][q]
            == if p == i && 4 * g <= q < 4 * g + 4 {
                old(C)@[p][q] + a * B@[k as int][q]
            } else {
                old(C)@[p][q]
            },
{
    let columns = C.columns;
    proof {
        lemma_offset_in_bounds(k as int, 4 * g + 3, B.rows as int, columns as int);
        lemma_offset_in_bounds(i as int, 4 * g + 3, C.rows as int, columns as int);
    }
    let bo = k * columns + 4 * g;
    let co = i * columns + 4 * g;
    let b = i64::load(B.data.as_slice(), bo);
    let c = i64::load(C.data.as_slice(), co);
    assert forall|l: int| 0 <= l < 4 implies #[trigger] fits(a * b@[l]) && fits(c@[l] + a * b@[l]) by {
        assert(b@[l] == B@[k as int][4 * g + l]);
        assert(c@[l] == C@[i as int][4 * g + l]);
        assert(fits(a * B@[k as int][4 * g + l]));
    }
    let r = fma_lanes(a, b, c);
    let ghost prev = C.data@;
    r.store(C.data.as_mut_slice(), co);
    assert forall|p: int, q: int| 0 <= p < C.rows && 0 <= q < columns implies #[trigger] C@[p][q]
        == if p == i && 4 * g <= q < 4 * g + 4 {
            old(C)@[p][q] + a * B@[k as int][q]
        } else {
            old(C)@[p][q]
        } by {
        lemma_offset_in_group(p, q, i as int, g as int, columns as int);
        lemma_offset_in_bounds(p, q, C.rows as int, columns as int);
        if p == i && 4 * g <= q < 4 * g + 4 {
            assert(C.data@[p * columns + q] == r@[q - 4 * g]);
            assert(b@[q - 4 * g] == B@[k as int][q]);
            assert(c@[q - 4 * g] == prev[p * columns + q]);
        } else {
            assert(C.data@[p * columns + q] == prev[p * columns + q]);
        }
    }
}

/// `C += A * B` on lane groups. Where the row length is a multiple of 16 and
/// all three matrices are lane-packed, four groups are updated per step;
/// otherwise one. Each entry receives its terms in increasing order of the
/// inner index.
#[allow(non_snake_case)]
pub fn mult_add(A: &Matrix, B: &Matrix, C: &mut Matrix)
    requires
        A.wf(),
        B.wf(),
        old(C).wf(),
        A.columns == B.rows,
        A.rows == old(C).rows,
        B.columns == old(C).columns,
        old(C).rows % 4 == 0,
        A.columns % 4 == 0,
        old(C).columns % 4 == 0,
        accumulation_fits(old(C)@, A@, B@),
    ensures
        final(C).wf(),
        final(C).rows == old(C).rows,
        final(C).columns == old(C).columns,
        final(C).aligned == old(C).aligned,
        final(C)@ == plus(old(C)@, product(A@, B@, B.columns as nat)),
{
    let ghost c0 = C@;
    let ghost prod = product(A@, B@, B.columns as nat);
    let rows = C.rows;
    let columns = C.columns;
    let inner = A.columns;
    let mut i: usize = 0;
    while i < rows
        invariant
            A.wf(), B.wf(), C.wf(),
            inner == A.columns, inner == B.rows,
            rows == A.rows, rows == C.rows,
            columns == B.columns, columns == C.columns, columns % 4 == 0,
            C.aligned == old(C).aligned,
            c0 == old(C)@, old(C).rows == rows, old(C).columns == columns,
            prod == product(A@, B@, columns as nat),
            accumulation_fits(c0, A@, B@),
            0 <= i <= rows,
            forall|p: int, q: int| 0 <= p < rows && 0 <= q < columns
                ==> #[trigger] C@[p][q] == if p < i { c0[p][q] + prod[p][q] } else { c0[p][q] },
        decreases rows - i,
    {
        let mut k: usize = 0;
        while k < inner
            invariant
                A.wf(), B.wf(), C.wf(),
                inner == A.columns, inner == B.rows,
                rows == A.rows, rows == C.rows,
                columns == B.columns, columns == C.columns, columns % 4 == 0,
                C.aligned == old(C).aligned,
                c0 == old(C)@, old(C).rows == rows, old(C).columns == columns,
                prod == product(A@, B@, columns as nat),
                accumulation_fits(c0, A@, B@),
                0 <= i < rows,
                0 <= k <= inner,
                forall|p: int, q: int| 0 <= p < rows && 0 <= q < columns
                    ==> #[trigger] C@[p][q] == if p < i {
                        c0[p][q] + prod[p][q]
                    } else if p == i {
                        c0[p][q] + partial(A@, B@, p, q, k as nat)
                    } else {
                        c0[p][q]
                    },
            decreases inner - k,
        {
            let a = *A.get_unchecked((i, k));
            assert(a == A@[i as int][k as int]);
            let wide = columns % 16 == 0 && A.is_aligned() && B.is_aligned() && C.is_aligned();
            let step: usize = if wide { 4 } else { 1 };
            let mut g: usize = 0;
            while g < columns / 4
                invariant
                    A.wf(), B.wf(), C.wf(),
                    inner == A.columns, inner == B.rows,
                    rows == A.rows, rows == C.rows,
                    columns == B.columns, columns == C.columns, columns % 4 == 0,
                    C.aligned == old(C).aligned,
                    c0 == old(C)@, old(C).rows == rows, old(C).columns == columns,
                    prod == product(A@, B@, columns as nat),
                    accumulation_fits(c0, A@, B@),
                    0 <= i < rows,
                    0 <= k < inner,
                    step == 1 || (step == 4 && columns % 16 == 0),
                    0 <= g <= columns / 4,
                    g % step == 0,
                    a == A@[i as int][k as int],
                    forall|p: int, q: int| 0 <= p < rows && 0 <= q < columns
                        ==> #[trigger] C@[p][q] == if p < i {
                            c0[p][q] + prod[p][q]
                        } else if p == i && q < 4 * g {
                            c0[p][q] + partial(A@, B@, p, q, (k + 1) as nat)
                        } else if p == i {
                            c0[p][q] + partial(A@, B@, p, q, k as nat)
                        } else {
                            c0[p][q]
                        },
                decreases columns / 4 - g,
            {
                let mut l: usize = 0;
                while l < step
                    invariant
                        A.wf(), B.wf(), C.wf(),
                        inner == A.columns, inner == B.rows,
                        rows == A.rows, rows == C.rows,
                        columns == B.columns, columns == C.columns, columns % 4 == 0,
                        C.aligned == old(C).aligned,
                        c0 == old(C)@, old(C).rows == rows, old(C).columns == columns,
                        accumulation_fits(c0, A@, B@),
                        0 <= i < rows,
                        0 <= k < inner,
                        step == 1 || (step == 4 && columns % 16 == 0),
                        g % step == 0,
                        g + step <= columns / 4,
                        0 <= l <= step,
                        a == A@[i as int][k as int],
                        prod == product(A@, B@, columns as nat),
                        forall|p: int, q: int| 0 <= p < rows && 0 <= q < columns
                            ==> #[trigger] C@[p][q] == if p < i {
                                c0[p][q] + prod[p][q]
                            } else if p == i && q < 4 * (g + l) {
                                c0[p][q] + partial(A@, B@, p, q, (k + 1) as nat)
                            } else if p == i {
                                c0[p][q] + partial(A@, B@, p, q, k as nat)
                            } else {
                                c0[p][q]
                            },
                    decreases step - l,
                {
                    proof {
                        assert forall|t: int| 0 <= t < 4 implies #[trigger] fits(a * B@[k as int][4 * (g + l) + t])
                            && fits(C@[i as int][4 * (g + l) + t] + a * B@[k as int][4 * (g + l) + t]) by {
                            assert(step_fits(c0, A@, B@, i as int, 4 * (g + l) + t, k as int));
                            assert(C@[i as int][4 * (g + l) + t] == c0[i as int][4 * (g + l) + t]
                                + partial(A@, B@, i as int, 4 * (g + l) + t, k as nat));
                        }
                    }
                    fma_group(a, B, C, i, k, g + l);
                    l = l + 1;
                }
                proof {
                    assert(step == 1 || columns / 4 % 4 == 0);
                }
                g = g + step;
            }
            k = k + 1;
        }
        i = i + 1;
    }
    proof {
        lemma_grid_ext(C@, plus(c0, prod), rows as nat, columns as nat);
    }
}

/// `C = A * B` on lane groups: `C` is zeroed, then `mult_add` runs.
#[allow(non_snake_case)]
pub fn mult(A: &Matrix, B: &Matrix, C: &mut Matrix)
    requires
        A.wf(),
        B.wf(),
        old(C).wf(),
        A.columns == B.rows,
        A.rows == old(C).rows,
        B.columns == old(C).columns,
        old(C).rows % 4 == 0,
        A.columns % 4 == 0,
        old(C).columns % 4 == 0,
        product_fits(A@, B@, B.columns as nat),
    ensures
        final(C).wf(),
        final(C).rows == old(C).rows,
        final(C).columns == old(C).columns,
        final(C).aligned == old(C).aligned,
        final(C)@ == product(A@, B@, B.columns as nat),
{
    C.reset();
    let ghost z = C@;
    mult_add(A, B, C);
    proof {
        let prod = product(A@, B@, B.columns as nat);
        assert forall|p: int, q: int| 0 <= p < C.rows && 0 <= q < C.columns implies #[trigger] C@[p][q] == prod[p][q] by {
            assert(z[p][q] == 0);
        }
        lemma_grid_ext(C@, prod, C.rows as nat, C.columns as nat);
    }
}

} // verus!
