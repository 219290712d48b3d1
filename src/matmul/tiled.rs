//! The tiling engine: the product of two tiled matrices, block pair by block
//! pair, each block product computed by the lane-group kernel.

use vstd::prelude::*;

use crate::matmul::algebra::{accumulation_fits, fits, lemma_grid_ext, partial, plus, product, step_fits};
use crate::matmul::matrix::standard::Matrix;
use crate::matmul::matrix::tiled::{lemma_block_coordinates, lemma_cell_in_range, TileMatrix};
use crate::matmul::naive_simd;

verus! {

/// Whether the grids of blocks of `A`, `B` and `C` fit together for
/// `C += A * B`, and the blocks are shaped for the lane-group kernel.
#[allow(non_snake_case)]
pub open spec fn tiles_compatible(A: TileMatrix, B: TileMatrix, C: TileMatrix) -> bool {
    &&& A.blocks_right == B.blocks_down
    &&& A.blocks_down == C.blocks_down
    &&& B.blocks_right == C.blocks_right
    &&& A.block_columns == B.block_rows
    &&& A.block_rows == C.block_rows
    &&& B.block_columns == C.block_columns
    &&& C.block_rows % 4 == 0
    &&& A.block_columns % 4 == 0
    &&& C.block_columns % 4 == 0
}

/// Adding term `n` of entry `(i, j)` of the padded product to `c` stays
/// within `i64`.
#[allow(non_snake_case)]
pub open spec fn padded_step_fits(A: TileMatrix, B: TileMatrix, c: int, i: int, j: int, n: int) -> bool {
    &&& fits(A.padded()[i][n] * B.padded()[n][j])
    &&& fits(c + partial(A.padded(), B.padded(), i, j, (n + 1) as nat))
}

/// Every running sum of `c + (A * B)` restricted to block `(bi, bj)`, formed
/// over the padded inner index in increasing order, fits in an `i64`.
#[allow(non_snake_case)]
pub open spec fn block_fits(A: TileMatrix, B: TileMatrix, bi: int, bj: int, c: Seq<Seq<int>>) -> bool {
    forall|p: int, q: int, n: int|
        0 <= p < A.block_rows && 0 <= q < B.block_columns && 0 <= n < A.padded_columns()
            ==> #[trigger] padded_step_fits(A, B, c[p][q], bi * A.block_rows + p, bj * B.block_columns + q, n)
}

/// Shifting the inner index by `base`: the terms from `base` on of one sum are
/// the terms of another.
pub proof fn lemma_partial_shift(
    a: Seq<Seq<int>>,
    b: Seq<Seq<int>>,
    i: int,
    j: int,
    a2: Seq<Seq<int>>,
    b2: Seq<Seq<int>>,
    p: int,
    q: int,
    base: nat,
    t: nat,
)
    requires
        forall|s: int| 0 <= s < t ==> #[trigger] a2[p][s] == a[i][base + s] && b2[s][q] == b[base + s][j],
    ensures
        partial(a, b, i, j, base + t) == partial(a, b, i, j, base) + partial(a2, b2, p, q, t),
    decreases t,
{
    if t > 0 {
        lemma_partial_shift(a, b, i, j, a2, b2, p, q, base, (t - 1) as nat);
        assert(a2[p][t - 1] == a[i][base + t - 1]);
        assert((base + t - 1) as nat == (base + (t - 1)) as nat);
    }
}

/// The padded sums agree with the logical ones: terms past the logical inner
/// size are zero.
pub proof fn lemma_partial_padded(
    a: Seq<Seq<int>>,
    b: Seq<Seq<int>>,
    ap: Seq<Seq<int>>,
    bp: Seq<Seq<int>>,
    i: int,
    j: int,
    inner: nat,
    n: nat,
)
    requires
        forall|s: int| 0 <= s < n ==> #[trigger] ap[i][s] == (if s < inner { a[i][s] } else { 0 }),
        forall|s: int| 0 <= s < n && s < inner ==> #[trigger] bp[s][j] == b[s][j],
    ensures
        partial(ap, bp, i, j, n) == partial(a, b, i, j, if n <= inner { n } else { inner }),
    decreases n,
{
    if n > 0 {
        lemma_partial_padded(a, b, ap, bp, i, j, inner, (n - 1) as nat);
        assert(ap[i][n - 1] == (if n - 1 < inner { a[i][n - 1] } else { 0 }));
        if n - 1 < inner {
            assert(bp[n - 1][j] == b[n - 1][j]);
        }
    }
}

/// A sum whose terms all vanish is zero.
pub proof fn lemma_partial_zero(a: Seq<Seq<int>>, b: Seq<Seq<int>>, i: int, j: int, n: nat)
    requires
        forall|s: int| 0 <= s < n ==> #[trigger] a[i][s] == 0 || b[s][j] == 0,
    ensures
        partial(a, b, i, j, n) == 0,
    decreases n,
{
    if n > 0 {
        lemma_partial_zero(a, b, i, j, (n - 1) as nat);
        assert(a[i][n - 1] == 0 || b[n - 1][j] == 0);
    }
}

/// Entry `(p, q)` of block `(bi, bj)` is entry
/// `(bi * block_rows + p, bj * block_columns + q)` of the padded grid.
pub proof fn lemma_block_entry(m: TileMatrix, bi: int, bj: int, p: int, q: int)
    requires
        m.wf(),
        0 <= bi < m.blocks_down,
        0 <= bj < m.blocks_right,
        0 <= p < m.block_rows,
        0 <= q < m.block_columns,
    ensures
        0 <= bi * m.block_rows + p < m.padded_rows(),
        0 <= bj * m.block_columns + q < m.padded_columns(),
        0 <= bi * m.blocks_right + bj < m.data@.len(),
        m.padded()[bi * m.block_rows + p][bj * m.block_columns + q] == m.data@[bi * m.blocks_right + bj]@[p][q],
{
    let br = m.block_rows as int;
    let bc = m.block_columns as int;
    lemma_block_coordinates(bi, p, br);
    lemma_block_coordinates(bj, q, bc);
    assert(0 <= bi * br + p < m.blocks_down * br) by (nonlinear_arith)
        requires 0 <= bi < m.blocks_down, 0 <= p < br;
    assert(0 <= bj * bc + q < m.blocks_right * bc) by (nonlinear_arith)
        requires 0 <= bj < m.blocks_right, 0 <= q < bc;
    assert(0 <= bi * m.blocks_right + bj < m.blocks_right * m.blocks_down) by (nonlinear_arith)
        requires 0 <= bi < m.blocks_down, 0 <= bj < m.blocks_right;
}

/// The terms that block `at` = `A(bi, k)` and block `bt` = `B(k, bj)` give
/// to entry `(p, q)` of their product are the terms of the padded product
/// from `k * A.block_columns` on.
#[allow(non_snake_case)]
pub proof fn lemma_block_terms(
    A: TileMatrix,
    B: TileMatrix,
    bi: int,
    bj: int,
    k: int,
    p: int,
    q: int,
    at: Matrix,
    bt: Matrix,
)
    requires
        A.wf(),
        B.wf(),
        A.blocks_right == B.blocks_down,
        A.block_columns == B.block_rows,
        0 <= bi < A.blocks_down,
        0 <= bj < B.blocks_right,
        0 <= k < A.blocks_right,
        0 <= p < A.block_rows,
        0 <= q < B.block_columns,
        at == A.data@[bi * A.blocks_right + k],
        bt == B.data@[k * B.blocks_right + bj],
    ensures
        0 <= k * A.block_columns,
        forall|s: int| 0 <= s < A.block_columns ==> #[trigger] at@[p][s]
            == A.padded()[bi * A.block_rows + p][(k * A.block_columns) as nat + s]
            && bt@[s][q] == B.padded()[(k * A.block_columns) as nat + s][bj * B.block_columns + q],
{
    assert(0 <= k * A.block_columns) by (nonlinear_arith)
        requires 0 <= k, 0 <= A.block_columns;
    assert forall|s: int| 0 <= s < A.block_columns implies #[trigger] at@[p][s]
        == A.padded()[bi * A.block_rows + p][(k * A.block_columns) as nat + s]
        && bt@[s][q] == B.padded()[(k * A.block_columns) as nat + s][bj * B.block_columns + q] by {
        lemma_block_entry(A, bi, k, p, s);
        lemma_block_entry(B, k, bj, s, q);
    }
}

/// `c += sum_k A(bi, k) * B(k, bj)` over the blocks of the contraction, in
/// increasing order of `k`, each block product by the lane-group kernel.
#[allow(non_snake_case)]
pub(crate) fn tile_product(A: &TileMatrix, B: &TileMatrix, bi: usize, bj: usize, c: &mut Matrix)
    requires
        A.wf(),
        B.wf(),
        A.blocks_right == B.blocks_down,
        A.block_columns == B.block_rows,
        A.block_rows % 4 == 0,
        A.block_columns % 4 == 0,
        B.block_columns % 4 == 0,
        bi < A.blocks_down,
        bj < B.blocks_right,
        old(c).wf(),
        old(c).rows == A.block_rows,
        old(c).columns == B.block_columns,
        block_fits(*A, *B, bi as int, bj as int, old(c)@),
    ensures
        final(c).wf(),
        final(c).rows == old(c).rows,
        final(c).columns == old(c).columns,
        final(c).aligned == old(c).aligned,
        forall|p: int, q: int| 0 <= p < A.block_rows && 0 <= q < B.block_columns ==> #[trigger] final(c)@[p][q]
            == old(c)@[p][q] + partial(
                A.padded(),
                B.padded(),
                bi * A.block_rows + p,
                bj * B.block_columns + q,
                A.padded_columns(),
            ),
{
    let ghost c0 = c@;
    let ghost ap = A.padded();
    let ghost bp = B.padded();
    let ghost br = A.block_rows as int;
    let ghost bk = A.block_columns as int;
    let ghost bc = B.block_columns as int;
    let mut k: usize = 0;
    while k < A.blocks_right
        invariant
            A.wf(),
            B.wf(),
            A.blocks_right == B.blocks_down,
            A.block_columns == B.block_rows,
            A.block_rows % 4 == 0,
            A.block_columns % 4 == 0,
            B.block_columns % 4 == 0,
            bi < A.blocks_down,
            bj < B.blocks_right,
            ap == A.padded(), bp == B.padded(),
            br == A.block_rows, bk == A.block_columns, bc == B.block_columns,
            c.wf(),
            c.rows == A.block_rows,
            c.columns == B.block_columns,
            c.aligned == old(c).aligned,
            c0 == old(c)@, old(c).rows == br, old(c).columns == bc,
            block_fits(*A, *B, bi as int, bj as int, c0),
            0 <= k <= A.blocks_right,
            forall|p: int, q: int| 0 <= p < br && 0 <= q < bc ==> #[trigger] c@[p][q]
                == c0[p][q] + partial(ap, bp, bi * br + p, bj * bc + q, (k * bk) as nat),
        decreases A.blocks_right - k,
    {
        let at = A.tile(bi, k);
        let bt = B.tile(k, bj);
        let ghost cur = c@;
        proof {
            assert(0 <= k * bk) by (nonlinear_arith)
                requires 0 <= k, 0 <= bk;
            assert(0 <= bi * A.blocks_right + k < A.blocks_right * A.blocks_down) by (nonlinear_arith)
                requires 0 <= bi < A.blocks_down, 0 <= k < A.blocks_right;
            assert(0 <= k * B.blocks_right + bj < B.blocks_right * B.blocks_down) by (nonlinear_arith)
                requires 0 <= k < B.blocks_down, 0 <= bj < B.blocks_right;
            assert(at.rows == br && at.columns == bk && at.wf());
            assert(bt.rows == bk && bt.columns == bc && bt.wf());
            assert forall|p: int, q: int, t: int|
                0 <= p < cur.len() && 0 <= q < cur[p].len() && 0 <= t < bt@.len()
                    implies #[trigger] step_fits(cur, at@, bt@, p, q, t) by {
                lemma_block_terms(*A, *B, bi as int, bj as int, k as int, p, q, *at, *bt);
                lemma_partial_shift(ap, bp, bi * br + p, bj * bc + q, at@, bt@, p, q, (k * bk) as nat, (t + 1) as nat);
                assert(k * bk + t < A.padded_columns()) by (nonlinear_arith)
                    requires 0 <= k < A.blocks_right, 0 <= t < bk, A.padded_columns() == A.blocks_right * bk;
                assert(padded_step_fits(*A, *B, c0[p][q], bi * A.block_rows + p, bj * B.block_columns + q, k * bk + t));
                assert(at@[p][t] == ap[bi * br + p][k * bk + t]);
            }
        }
        naive_simd::mult_add(at, bt, c);
        proof {
            assert forall|p: int, q: int| 0 <= p < br && 0 <= q < bc implies #[trigger] c@[p][q]
                == c0[p][q] + partial(ap, bp, bi * br + p, bj * bc + q, ((k + 1) * bk) as nat) by {
                lemma_block_terms(*A, *B, bi as int, bj as int, k as int, p, q, *at, *bt);
                lemma_partial_shift(ap, bp, bi * br + p, bj * bc + q, at@, bt@, p, q, (k * bk) as nat, bk as nat);
                assert((k + 1) * bk == k * bk + bk) by (nonlinear_arith);
                assert(0 <= k * bk) by (nonlinear_arith)
                    requires 0 <= k, 0 <= bk;
            }
        }
        k = k + 1;
    }
    proof {
        vstd::arithmetic::mul::lemma_mul_is_commutative(A.blocks_right as int, bk);
    }
}

/// Entry `(i, j)` of the padded product is entry `(i, j)` of the logical
/// product inside the logical size of `C`, and zero in its padding.
#[allow(non_snake_case)]
pub proof fn lemma_padded_product_entry(A: TileMatrix, B: TileMatrix, C: TileMatrix, i: int, j: int, n: nat)
    requires
        A.wf(),
        B.wf(),
        C.wf(),
        tiles_compatible(A, B, C),
        A.columns == B.rows,
        A.rows == C.rows,
        B.columns == C.columns,
        0 <= i < C.padded_rows(),
        0 <= j < C.padded_columns(),
        n <= A.padded_columns(),
    ensures
        i < C.rows && j < C.columns ==> partial(A.padded(), B.padded(), i, j, n) == partial(
            A@,
            B@,
            i,
            j,
            if n <= A.columns { n } else { A.columns as nat },
        ),
        !(i < C.rows && j < C.columns) ==> partial(A.padded(), B.padded(), i, j, n) == 0,
        forall|s: int| 0 <= s < A.padded_columns() && !(i < C.rows && j < C.columns) ==>
            #[trigger] (A.padded()[i][s] * B.padded()[s][j]) == 0,
        forall|s: int| 0 <= s < A.padded_columns() && i < C.rows && j < C.columns ==>
            #[trigger] A.padded()[i][s] == if s < A.columns { A@[i][s] } else { 0 },
{
    let ap = A.padded();
    let bp = B.padded();
    assert(A.padded_rows() == C.padded_rows());
    assert(B.padded_columns() == C.padded_columns());
    assert(B.padded_rows() == A.padded_columns()) by {
        vstd::arithmetic::mul::lemma_mul_is_commutative(A.blocks_right as int, A.block_columns as int);
    }
    if i < C.rows && j < C.columns {
        assert forall|s: int| 0 <= s < n implies #[trigger] ap[i][s] == (if s < A.columns { A@[i][s] } else { 0 }) by {
            if s >= A.columns {
                assert(A.cell(i, s) == 0);
            }
        }
        lemma_partial_padded(A@, B@, ap, bp, i, j, A.columns as nat, n);
    } else {
        assert forall|s: int| 0 <= s < A.padded_columns() implies #[trigger] ap[i][s] == 0 || bp[s][j] == 0 by {
            if i >= C.rows {
                assert(A.cell(i, s) == 0);
            } else {
                assert(B.cell(s, j) == 0);
            }
        }
        lemma_partial_zero(ap, bp, i, j, n);
    }
    assert forall|s: int| 0 <= s < A.padded_columns() && !(i < C.rows && j < C.columns) implies
        #[trigger] (ap[i][s] * bp[s][j]) == 0 by {
        if i >= C.rows {
            assert(A.cell(i, s) == 0);
        } else {
            assert(B.cell(s, j) == 0);
        }
    }
    assert forall|s: int| 0 <= s < A.padded_columns() && i < C.rows && j < C.columns implies
        #[trigger] ap[i][s] == if s < A.columns { A@[i][s] } else { 0 } by {
        if s >= A.columns {
            assert(A.cell(i, s) == 0);
        }
    }
}

/// The overflow bound of the whole product gives the bound of each block.
#[allow(non_snake_case)]
pub proof fn lemma_block_fits(A: TileMatrix, B: TileMatrix, C: TileMatrix, bi: int, bj: int)
    requires
        A.wf(),
        B.wf(),
        C.wf(),
        tiles_compatible(A, B, C),
        A.columns == B.rows,
        A.rows == C.rows,
        B.columns == C.columns,
        accumulation_fits(C@, A@, B@),
        0 <= bi < C.blocks_down,
        0 <= bj < C.blocks_right,
    ensures
        block_fits(A, B, bi, bj, C.data@[bi * C.blocks_right + bj]@),
{
    let c = C.data@[bi * C.blocks_right + bj]@;
    assert forall|p: int, q: int, n: int|
        0 <= p < A.block_rows && 0 <= q < B.block_columns && 0 <= n < A.padded_columns()
            implies #[trigger] padded_step_fits(A, B, c[p][q], bi * A.block_rows + p, bj * B.block_columns + q, n) by {
        let i = bi * A.block_rows + p;
        let j = bj * B.block_columns + q;
        lemma_block_entry(C, bi, bj, p, q);
        assert(c[p][q] == C.padded()[i][j]);
        lemma_cell_in_range(C, i, j);
        lemma_padded_product_entry(A, B, C, i, j, (n + 1) as nat);
        if i < C.rows && j < C.columns {
            assert(C@[i][j] == c[p][q]);
            assert(i < C@.len() && j < C@[i].len());
            if n < A.columns {
                assert(step_fits(C@, A@, B@, i, j, n));
                assert(B.padded()[n][j] == B@[n][j]) by {
                    lemma_cell_in_range(B, n, j);
                }
            } else if A.columns > 0 {
                assert(step_fits(C@, A@, B@, i, j, A.columns - 1));
            }
        }
    }
}

/// `C += A * B` on tiled matrices: for each block `(i, j)` of `C`, the block
/// products `A(i, k) * B(k, j)` are added in increasing order of `k`.
#[allow(non_snake_case)]
pub fn mult(A: &TileMatrix, B: &TileMatrix, C: &mut TileMatrix)
    requires
        A.wf(),
        B.wf(),
        old(C).wf(),
        A.columns == B.rows,
        A.rows == old(C).rows,
        B.columns == old(C).columns,
        tiles_compatible(*A, *B, *old(C)),
        accumulation_fits(old(C)@, A@, B@),
    ensures
        final(C).wf(),
        final(C).rows == old(C).rows,
        final(C).columns == old(C).columns,
        final(C).blocks_right == old(C).blocks_right,
        final(C).blocks_down == old(C).blocks_down,
        final(C).block_rows == old(C).block_rows,
        final(C).block_columns == old(C).block_columns,
        final(C)@ == plus(old(C)@, product(A@, B@, B.columns as nat)),
{
    let ghost c0 = *C;
    let ghost ap = A.padded();
    let ghost bp = B.padded();
    let ghost br = C.block_rows as int;
    let ghost bc = C.block_columns as int;
    let down = C.blocks_down;
    let right = C.blocks_right;
    let mut i: usize = 0;
    while i < down
        invariant
            A.wf(), B.wf(), c0.wf(),
            A.columns == B.rows, A.rows == c0.rows, B.columns == c0.columns,
            tiles_compatible(*A, *B, c0),
            accumulation_fits(c0@, A@, B@),
            c0 == *old(C),
            ap == A.padded(), bp == B.padded(),
            br == c0.block_rows, bc == c0.block_columns,
            down == c0.blocks_down, right == c0.blocks_right,
            C.rows == c0.rows, C.columns == c0.columns,
            C.blocks_right == right, C.blocks_down == down,
            C.block_rows == c0.block_rows, C.block_columns == c0.block_columns,
            C.data@.len() == c0.data@.len(),
            TileMatrix::blocks_wf(C.data@, br as nat, bc as nat),
            0 <= i <= down,
            forall|t: int| 0 <= t < C.data@.len() && t >= i * right ==> #[trigger] C.data@[t] == c0.data@[t],
            forall|t: int, p: int, q: int| 0 <= t < i * right && 0 <= p < br && 0 <= q < bc ==> #[trigger] C.data@[t]@[p][q]
                == c0.data@[t]@[p][q] + partial(ap, bp, (t / right as int) * br + p, (t % right as int) * bc + q, A.padded_columns()),
        decreases down - i,
    {
        let mut j: usize = 0;
        while j < right
            invariant
                A.wf(), B.wf(), c0.wf(),
                A.columns == B.rows, A.rows == c0.rows, B.columns == c0.columns,
                tiles_compatible(*A, *B, c0),
                accumulation_fits(c0@, A@, B@),
                c0 == *old(C),
                ap == A.padded(), bp == B.padded(),
                br == c0.block_rows, bc == c0.block_columns,
                down == c0.blocks_down, right == c0.blocks_right,
                C.rows == c0.rows, C.columns == c0.columns,
                C.blocks_right == right, C.blocks_down == down,
                C.block_rows == c0.block_rows, C.block_columns == c0.block_columns,
                C.data@.len() == c0.data@.len(),
                TileMatrix::blocks_wf(C.data@, br as nat, bc as nat),
                0 <= i < down,
                0 <= j <= right,
                forall|t: int| 0 <= t < C.data@.len() && t >= i * right + j ==> #[trigger] C.data@[t] == c0.data@[t],
                forall|t: int, p: int, q: int| 0 <= t < i * right + j && 0 <= p < br && 0 <= q < bc ==> #[trigger] C.data@[t]@[p][q]
                    == c0.data@[t]@[p][q] + partial(ap, bp, (t / right as int) * br + p, (t % right as int) * bc + q, A.padded_columns()),
            decreases right - j,
        {
            proof {
                assert(0 <= i * right + j < right * down) by (nonlinear_arith)
                    requires 0 <= i < down, 0 <= j < right;
                lemma_block_fits(*A, *B, c0, i as int, j as int);
                lemma_block_coordinates(i as int, j as int, right as int);
                assert(C.data@.len() == C.data.len());
            }
            let t = i * right + j;
            assert(C.data@[t as int] == c0.data@[t as int]);
            tile_product(A, B, i, j, &mut C.data[t]);
            j = j + 1;
        }
        proof {
            assert((i + 1) * right == i * right + right) by (nonlinear_arith);
        }
        i = i + 1;
    }
    proof {
        lemma_blocks_done(*A, *B, c0, *C);
    }
}

/// Once every block of `C` holds its block of `c0` plus the padded product,
/// `C` is well formed and holds `c0 + A * B`.
#[allow(non_snake_case)]
pub proof fn lemma_blocks_done(A: TileMatrix, B: TileMatrix, c0: TileMatrix, C: TileMatrix)
    requires
        A.wf(), B.wf(), c0.wf(),
        A.columns == B.rows, A.rows == c0.rows, B.columns == c0.columns,
        tiles_compatible(A, B, c0),
        C.rows == c0.rows, C.columns == c0.columns,
        C.blocks_right == c0.blocks_right, C.blocks_down == c0.blocks_down,
        C.block_rows == c0.block_rows, C.block_columns == c0.block_columns,
        C.data@.len() == c0.data@.len(),
        TileMatrix::blocks_wf(C.data@, c0.block_rows as nat, c0.block_columns as nat),
        forall|t: int, p: int, q: int| 0 <= t < C.data@.len() && 0 <= p < c0.block_rows && 0 <= q < c0.block_columns
            ==> #[trigger] C.data@[t]@[p][q] == c0.data@[t]@[p][q] + partial(
                A.padded(),
                B.padded(),
                (t / c0.blocks_right as int) * c0.block_rows + p,
                (t % c0.blocks_right as int) * c0.block_columns + q,
                A.padded_columns(),
            ),
    ensures
        C.wf(),
        C@ == plus(c0@, product(A@, B@, B.columns as nat)),
{
    let ap = A.padded();
    let bp = B.padded();
    let br = c0.block_rows as int;
    let bc = c0.block_columns as int;
    let right = c0.blocks_right;
    let down = c0.blocks_down;
    let target = plus(c0@, product(A@, B@, B.columns as nat));
    assert forall|gi: int, gj: int| 0 <= gi < C.padded_rows() && 0 <= gj < C.padded_columns() implies
        #[trigger] C.cell(gi, gj) == c0.cell(gi, gj) + partial(ap, bp, gi, gj, A.padded_columns()) by {
        lemma_cell_in_range(C, gi, gj);
        let t = C.tile_index(gi, gj);
        lemma_block_coordinates(gi / br, gj / bc, right as int);
        vstd::arithmetic::mul::lemma_mul_is_commutative(right as int, down as int);
    }
    assert forall|gi: int, gj: int| 0 <= gi < C.padded_rows() && 0 <= gj < C.padded_columns()
        && !(gi < C.rows && gj < C.columns) implies #[trigger] C.cell(gi, gj) == 0 by {
        lemma_padded_product_entry(A, B, c0, gi, gj, A.padded_columns());
        assert(c0.cell(gi, gj) == 0);
    }
    assert forall|gi: int, gj: int| 0 <= gi < C.rows && 0 <= gj < C.columns implies
        #[trigger] C@[gi][gj] == target[gi][gj] by {
        lemma_padded_product_entry(A, B, c0, gi, gj, A.padded_columns());
        assert(C.cell(gi, gj) == c0.cell(gi, gj) + partial(ap, bp, gi, gj, A.padded_columns()));
    }
    lemma_grid_ext(C@, target, C.rows as nat, C.columns as nat);
}

} // verus!
