//! The mathematical model of the kernels: matrices as sequences of rows of
//! integers, and the running sums that a multiplication forms.

use vstd::prelude::*;

verus! {

/// Number of scalars packed into one vector lane group.
pub const LANES: usize = 4;

/// Whether `x` is representable as an `i64`.
pub open spec fn fits(x: int) -> bool {
    i64::MIN <= x <= i64::MAX
}

/// Whether `m` is a `rows` x `columns` grid.
pub open spec fn has_shape(m: Seq<Seq<int>>, rows: nat, columns: nat) -> bool {
    &&& m.len() == rows
    &&& forall|i: int| 0 <= i < rows ==> (#[trigger] m[i]).len() == columns
}

/// `sum_{t < k} a[i][t] * b[t][j]`: the first `k` terms of entry `(i, j)` of `a * b`.
pub open spec fn partial(a: Seq<Seq<int>>, b: Seq<Seq<int>>, i: int, j: int, k: nat) -> int
    decreases k,
{
    if k == 0 {
        0
    } else {
        partial(a, b, i, j, (k - 1) as nat) + a[i][k - 1] * b[k - 1][j]
    }
}

/// The product of `a` (with `b.len()` columns) and `b` (with `columns` columns).
pub open spec fn product(a: Seq<Seq<int>>, b: Seq<Seq<int>>, columns: nat) -> Seq<Seq<int>> {
    Seq::new(a.len(), |i: int| Seq::new(columns, |j: int| partial(a, b, i, j, b.len())))
}

/// The entrywise sum of two grids of the shape of `c`.
pub open spec fn plus(c: Seq<Seq<int>>, d: Seq<Seq<int>>) -> Seq<Seq<int>> {
    Seq::new(c.len(), |i: int| Seq::new(c[i].len(), |j: int| c[i][j] + d[i][j]))
}

/// The `rows` x `columns` grid of zeros.
pub open spec fn zeros(rows: nat, columns: nat) -> Seq<Seq<int>> {
    Seq::new(rows, |i: int| Seq::new(columns, |j: int| 0))
}

/// Adding the term of index `k` to entry `(i, j)`, starting from `c[i][j]`,
/// stays within `i64`: the term itself and the running sum after it.
pub open spec fn step_fits(c: Seq<Seq<int>>, a: Seq<Seq<int>>, b: Seq<Seq<int>>, i: int, j: int, k: int) -> bool {
    &&& fits(a[i][k] * b[k][j])
    &&& fits(c[i][j] + partial(a, b, i, j, (k + 1) as nat))
}

/// Every running sum of `c + a * b`, formed entry by entry in order of the
/// inner index, fits in an `i64`.
pub open spec fn accumulation_fits(c: Seq<Seq<int>>, a: Seq<Seq<int>>, b: Seq<Seq<int>>) -> bool {
    forall|i: int, j: int, k: int|
        0 <= i < c.len() && 0 <= j < c[i].len() && 0 <= k < b.len()
            ==> #[trigger] step_fits(c, a, b, i, j, k)
}

/// Every running sum of `a * b`, formed entry by entry in order of the inner
/// index, fits in an `i64`.
pub open spec fn product_fits(a: Seq<Seq<int>>, b: Seq<Seq<int>>, columns: nat) -> bool {
    accumulation_fits(zeros(a.len(), columns), a, b)
}

/// Whether entry `(p, q)` comes before entry `(i, j)` in row-major order.
pub open spec fn before(p: int, q: int, i: int, j: int) -> bool {
    p < i || (p == i && q < j)
}

/// Two grids of one shape that agree entry by entry are equal.
pub proof fn lemma_grid_ext(x: Seq<Seq<int>>, y: Seq<Seq<int>>, rows: nat, columns: nat)
    requires
        has_shape(x, rows, columns),
        has_shape(y, rows, columns),
        forall|i: int, j: int| 0 <= i < rows && 0 <= j < columns ==> #[trigger] x[i][j] == y[i][j],
    ensures
        x == y,
{
    assert forall|i: int| 0 <= i < rows implies #[trigger] x[i] =~= y[i] by {
        assert(x[i].len() == columns);
        assert(y[i].len() == columns);
    }
    assert(x =~= y);
}

/// Every kernel agrees with the baseline on the same operands. The baseline
/// leaves `product(a, b, columns)`; an accumulating kernel started from a zero
/// result leaves `plus(zeros(rows, columns), product(a2, b2, columns))`, where
/// `a2` and `b2` are the grids of the operands in its own layout
/// (column-major, tiled), equal to `a` and `b`. Both results are the same grid.
pub proof fn law_kernels_agree(
    a: Seq<Seq<int>>,
    b: Seq<Seq<int>>,
    a2: Seq<Seq<int>>,
    b2: Seq<Seq<int>>,
    rows: nat,
    columns: nat,
    baseline: Seq<Seq<int>>,
    accumulated: Seq<Seq<int>>,
)
    requires
        a.len() == rows,
        a2 == a,
        b2 == b,
        baseline == product(a, b, columns),
        accumulated == plus(zeros(rows, columns), product(a2, b2, columns)),
    ensures
        accumulated == baseline,
{
    assert forall|i: int, j: int| 0 <= i < rows && 0 <= j < columns implies #[trigger] accumulated[i][j] == baseline[i][j] by {
    }
    lemma_grid_ext(accumulated, baseline, rows, columns);
}

} // verus!
