//! The tiled matrix: a grid of equally shaped row-major blocks.

use vstd::prelude::*;

use vstd::arithmetic::div_mod::{lemma_fundamental_div_mod, lemma_fundamental_div_mod_converse};

use crate::matmul::algebra::{before, zeros};
use crate::matmul::matrix::standard::{pattern, Matrix};

verus! {

/// The side of the square blocks that `TileMatrix::from_matrix` cuts.
pub const BLOCK_SIZE: usize = 128;

/// `ceil(n / d)`.
pub open spec fn blocks_for(n: nat, d: nat) -> nat {
    if n % d == 0 { n / d } else { n / d + 1 }
}

/// Block `(bi, bj)` of side `bs` of the `rows` x `columns` grid `m`, with the
/// part outside the grid filled with zeros.
pub open spec fn block_of(m: Seq<Seq<int>>, rows: nat, columns: nat, bs: nat, bi: int, bj: int) -> Seq<Seq<int>> {
    Seq::new(bs, |p: int| Seq::new(bs, |q: int|
        if bi * bs + p < rows && bj * bs + q < columns { m[bi * bs + p][bj * bs + q] } else { 0 }))
}

/// A matrix stored as `blocks_down` x `blocks_right` blocks of
/// `block_rows` x `block_columns` entries each, in row-major block order.
/// The logical size `rows` x `columns` may be smaller than the blocks cover;
/// the entries past it (the padding) are zero.
#[derive(Debug, PartialEq, Clone)]
pub struct TileMatrix {
    pub rows: usize,
    pub columns: usize,
    pub blocks_right: usize,
    pub blocks_down: usize,
    pub data: Vec<Matrix>,
    pub block_rows: usize,
    pub block_columns: usize,
}

impl View for TileMatrix {
    type V = Seq<Seq<int>>;

    /// The logical `rows` x `columns` grid, without padding.
    open spec fn view(&self) -> Seq<Seq<int>> {
        Seq::new(self.rows as nat, |i: int| Seq::new(self.columns as nat, |j: int| self.cell(i, j)))
    }
}

impl TileMatrix {
    /// Number of rows the blocks cover.
    pub open spec fn padded_rows(&self) -> nat {
        (self.blocks_down * self.block_rows) as nat
    }

    /// Number of columns the blocks cover.
    pub open spec fn padded_columns(&self) -> nat {
        (self.blocks_right * self.block_columns) as nat
    }

    /// Index in `data` of the block holding entry `(i, j)`.
    pub open spec fn tile_index(&self, i: int, j: int) -> int {
        (i / self.block_rows as int) * self.blocks_right + j / self.block_columns as int
    }

    /// Entry `(i, j)` of the grid the blocks cover.
    pub open spec fn cell(&self, i: int, j: int) -> int {
        self.data@[self.tile_index(i, j)]@[i % self.block_rows as int][j % self.block_columns as int]
    }

    /// The whole grid the blocks cover, padding included.
    pub open spec fn padded(&self) -> Seq<Seq<int>> {
        Seq::new(self.padded_rows(), |i: int| Seq::new(self.padded_columns(), |j: int| self.cell(i, j)))
    }

    /// Every entry past the logical size is zero.
    pub open spec fn padding_zero(&self) -> bool {
        forall|i: int, j: int|
            0 <= i < self.padded_rows() && 0 <= j < self.padded_columns() && !(i < self.rows && j < self.columns)
                ==> #[trigger] self.cell(i, j) == 0
    }

    /// Whether every block of `data` is a well-formed `block_rows` x
    /// `block_columns` matrix.
    pub open spec fn blocks_wf(data: Seq<Matrix>, block_rows: nat, block_columns: nat) -> bool {
        forall|t: int| 0 <= t < data.len() ==> {
            &&& (#[trigger] data[t]).wf()
            &&& data[t].rows == block_rows
            &&& data[t].columns == block_columns
        }
    }

    /// The blocks fill the grid of blocks, share one shape, cover the logical
    /// size, and hold zeros in the padding.
    pub open spec fn wf(&self) -> bool {
        &&& self.data@.len() == self.blocks_right * self.blocks_down
        &&& Self::blocks_wf(self.data@, self.block_rows as nat, self.block_columns as nat)
        &&& self.rows <= self.padded_rows()
        &&& self.columns <= self.padded_columns()
        &&& self.padding_zero()
    }

    /// Create a tiled matrix from its blocks, all of the shape of the first;
    /// the logical size is what the blocks cover.
    pub fn new(blocks_right: usize, blocks_down: usize, data: Vec<Matrix>) -> (r: Self)
        requires
            data@.len() == blocks_right * blocks_down,
            data@.len() > 0,
            Self::blocks_wf(data@, data@[0].rows as nat, data@[0].columns as nat),
            data@[0].rows * blocks_down <= usize::MAX,
            data@[0].columns * blocks_right <= usize::MAX,
        ensures
            r.wf(),
            r.rows == data@[0].rows * blocks_down,
            r.columns == data@[0].columns * blocks_right,
            r.blocks_right == blocks_right,
            r.blocks_down == blocks_down,
            r.block_rows == data@[0].rows,
            r.block_columns == data@[0].columns,
            r.data@ == data@,
    {
        let r = data[0].rows;
        let c = data[0].columns;
        proof {
            vstd::arithmetic::mul::lemma_mul_is_commutative(r as int, blocks_down as int);
            vstd::arithmetic::mul::lemma_mul_is_commutative(c as int, blocks_right as int);
        }
        Self {
            rows: r * blocks_down,
            columns: c * blocks_right,
            blocks_right,
            blocks_down,
            data,
            block_rows: r,
            block_columns: c,
        }
    }

    /// Create a tiled matrix from its blocks with the given logical size; the
    /// blocks hold zeros past that size.
    pub fn new_with_size(rows: usize, columns: usize, blocks_right: usize, blocks_down: usize, data: Vec<Matrix>) -> (r: Self)
        requires
            data@.len() == blocks_right * blocks_down,
            data@.len() > 0,
            Self::blocks_wf(data@, data@[0].rows as nat, data@[0].columns as nat),
            data@[0].rows * blocks_down <= usize::MAX,
            data@[0].columns * blocks_right <= usize::MAX,
            rows <= data@[0].rows * blocks_down,
            columns <= data@[0].columns * blocks_right,
            (Self {
                rows,
                columns,
                blocks_right,
                blocks_down,
                data,
                block_rows: data@[0].rows,
                block_columns: data@[0].columns,
            }).padding_zero(),
        ensures
            r.wf(),
            r.rows == rows,
            r.columns == columns,
            r.blocks_right == blocks_right,
            r.blocks_down == blocks_down,
            r.block_rows == data@[0].rows,
            r.block_columns == data@[0].columns,
            r.data@ == data@,
    {
        let ghost literal = Self {
            rows,
            columns,
            blocks_right,
            blocks_down,
            data,
            block_rows: data@[0].rows,
            block_columns: data@[0].columns,
        };
        let mut ret = Self::new(blocks_right, blocks_down, data);
        ret.rows = rows;
        ret.columns = columns;
        proof {
            vstd::arithmetic::mul::lemma_mul_is_commutative(ret.block_rows as int, blocks_down as int);
            vstd::arithmetic::mul::lemma_mul_is_commutative(ret.block_columns as int, blocks_right as int);
            assert forall|i: int, j: int|
                0 <= i < ret.padded_rows() && 0 <= j < ret.padded_columns() && !(i < ret.rows && j < ret.columns)
                    implies #[trigger] ret.cell(i, j) == 0 by {
                assert(literal.cell(i, j) == 0);
            }
        }
        ret
    }
}

impl TileMatrix {
    /// Create a zero matrix of `blocks_down` x `blocks_right` blocks, each of
    /// `ceil(rows / blocks_down)` x `ceil(columns / blocks_right)` entries.
    pub fn zero(rows: usize, columns: usize, blocks_right: usize, blocks_down: usize) -> (r: Self)
        requires
            blocks_right > 0,
            blocks_down > 0,
            blocks_right * blocks_down <= usize::MAX,
            blocks_for(rows as nat, blocks_down as nat) * blocks_down <= usize::MAX,
            blocks_for(columns as nat, blocks_right as nat) * blocks_right <= usize::MAX,
            blocks_for(rows as nat, blocks_down as nat) * blocks_for(columns as nat, blocks_right as nat) <= usize::MAX,
        ensures
            r.wf(),
            r.rows == rows,
            r.columns == columns,
            r.blocks_right == blocks_right,
            r.blocks_down == blocks_down,
            r.block_rows == blocks_for(rows as nat, blocks_down as nat),
            r.block_columns == blocks_for(columns as nat, blocks_right as nat),
            r.padded() == zeros(r.padded_rows(), r.padded_columns()),
            r@ == zeros(rows as nat, columns as nat),
    {
        proof {
            let rb = blocks_for(rows as nat, blocks_down as nat);
            let cb = blocks_for(columns as nat, blocks_right as nat);
            assert(rb <= rb * blocks_down) by (nonlinear_arith)
                requires blocks_down > 0;
            assert(cb <= cb * blocks_right) by (nonlinear_arith)
                requires blocks_right > 0;
            assert(blocks_right * blocks_down > 0) by (nonlinear_arith)
                requires blocks_right > 0, blocks_down > 0;
        }
        let r = if rows % blocks_down == 0 { rows / blocks_down } else { rows / blocks_down + 1 };
        let c = if columns % blocks_right == 0 { columns / blocks_right } else { columns / blocks_right + 1 };
        proof {
            lemma_blocks_cover(rows as nat, blocks_down as nat);
            lemma_blocks_cover(columns as nat, blocks_right as nat);
        }
        let n = blocks_right * blocks_down;
        let mut data: Vec<Matrix> = Vec::new();
        let mut t: usize = 0;
        while t < n
            invariant
                0 <= t <= n,
                r * c <= usize::MAX,
                data@.len() == t,
                forall|s: int| 0 <= s < t ==> {
                    &&& (#[trigger] data@[s]).wf()
                    &&& data@[s].rows == r
                    &&& data@[s].columns == c
                    &&& data@[s]@ == zeros(r as nat, c as nat)
                },
            decreases n - t,
        {
            data.push(Matrix::zero(r, c));
            t = t + 1;
        }
        let ghost literal = Self { rows, columns, blocks_right, blocks_down, data, block_rows: r, block_columns: c };
        proof {
            assert(data@[0].rows == r);
            assert forall|i: int, j: int| 0 <= i < literal.padded_rows() && 0 <= j < literal.padded_columns()
                implies #[trigger] literal.cell(i, j) == 0 by {
                lemma_cell_in_range(literal, i, j);
            }
        }
        let ret = Self::new_with_size(rows, columns, blocks_right, blocks_down, data);
        proof {
            assert forall|i: int, j: int| 0 <= i < ret.padded_rows() && 0 <= j < ret.padded_columns()
                implies #[trigger] ret.cell(i, j) == 0 by {
                assert(literal.cell(i, j) == 0);
            }
            assert(ret.padded() =~~= zeros(ret.padded_rows(), ret.padded_columns()));
            assert(ret@ =~~= zeros(rows as nat, columns as nat));
        }
        ret
    }

    /// Reset all entries to zero, padding included.
    pub fn reset(&mut self)
        requires
            old(self).wf(),
        ensures
            final(self).wf(),
            final(self).rows == old(self).rows,
            final(self).columns == old(self).columns,
            final(self).blocks_right == old(self).blocks_right,
            final(self).blocks_down == old(self).blocks_down,
            final(self).block_rows == old(self).block_rows,
            final(self).block_columns == old(self).block_columns,
            final(self).padded() == zeros(old(self).padded_rows(), old(self).padded_columns()),
            final(self)@ == zeros(old(self).rows as nat, old(self).columns as nat),
    {
        let n = self.data.len();
        let mut t: usize = 0;
        while t < n
            invariant
                0 <= t <= n,
                n == self.data@.len(),
                self.rows == old(self).rows,
                self.columns == old(self).columns,
                self.blocks_right == old(self).blocks_right,
                self.blocks_down == old(self).blocks_down,
                self.block_rows == old(self).block_rows,
                self.block_columns == old(self).block_columns,
                n == self.blocks_right * self.blocks_down,
                Self::blocks_wf(self.data@, self.block_rows as nat, self.block_columns as nat),
                forall|s: int| 0 <= s < t ==> (#[trigger] self.data@[s])@ == zeros(
                    self.block_rows as nat,
                    self.block_columns as nat,
                ),
            decreases n - t,
        {
            self.data[t].reset();
            t = t + 1;
        }
        proof {
            assert forall|i: int, j: int| 0 <= i < self.padded_rows() && 0 <= j < self.padded_columns()
                implies #[trigger] self.cell(i, j) == 0 by {
                lemma_cell_in_range(*self, i, j);
            }
            assert(self.padded() =~~= zeros(self.padded_rows(), self.padded_columns()));
            assert(self@ =~~= zeros(self.rows as nat, self.columns as nat));
        }
    }

    /// Whether every block is lane-packed.
    pub fn is_aligned(&self) -> (r: bool)
        ensures
            r == forall|t: int| 0 <= t < self.data@.len() ==> (#[trigger] self.data@[t]).aligned,
    {
        let mut t: usize = 0;
        while t < self.data.len()
            invariant
                0 <= t <= self.data@.len(),
                forall|s: int| 0 <= s < t ==> (#[trigger] self.data@[s]).aligned,
            decreases self.data@.len() - t,
        {
            if !self.data[t].is_aligned() {
                return false;
            }
            t = t + 1;
        }
        true
    }

    /// Block `(row, column)` of the grid of blocks.
    pub fn tile(&self, row: usize, column: usize) -> (r: &Matrix)
        requires
            self.wf(),
            row < self.blocks_down,
            column < self.blocks_right,
        ensures
            *r == self.data@[row * self.blocks_right + column],
    {
        proof {
            crate::matmul::matrix::standard::lemma_offset_in_bounds(
                row as int, column as int, self.blocks_down as int, self.blocks_right as int);
            assert(self.data@.len() == self.data.len());
            vstd::arithmetic::mul::lemma_mul_is_commutative(self.blocks_down as int, self.blocks_right as int);
        }
        &self.data[row * self.blocks_right + column]
    }
}

impl TileMatrix {
    /// Block `(bi, bj)` of side `BLOCK_SIZE` of `matrix`, zero past its edges.
    fn cut_block(matrix: &Matrix, bi: usize, bj: usize) -> (r: Matrix)
        requires
            matrix.wf(),
            bi * BLOCK_SIZE < matrix.rows,
            bj * BLOCK_SIZE < matrix.columns,
        ensures
            r.wf(),
            r.rows == BLOCK_SIZE,
            r.columns == BLOCK_SIZE,
            r@ == block_of(matrix@, matrix.rows as nat, matrix.columns as nat, BLOCK_SIZE as nat, bi as int, bj as int),
    {
        let bs = BLOCK_SIZE;
        let ghost block = block_of(matrix@, matrix.rows as nat, matrix.columns as nat, bs as nat, bi as int, bj as int);
        let row0 = bi * bs;
        let column0 = bj * bs;
        let mut tile = Matrix::zero(bs, bs);
        let mut p: usize = 0;
        while p < bs
            invariant
                matrix.wf(),
                tile.wf(),
                tile.rows == bs,
                tile.columns == bs,
                bs == BLOCK_SIZE,
                row0 == bi * bs,
                column0 == bj * bs,
                row0 < matrix.rows,
                column0 < matrix.columns,
                block == block_of(matrix@, matrix.rows as nat, matrix.columns as nat, bs as nat, bi as int, bj as int),
                0 <= p <= bs,
                forall|x: int, y: int| 0 <= x < bs && 0 <= y < bs ==> #[trigger] tile@[x][y] == if x < p {
                    block[x][y]
                } else {
                    0
                },
            decreases bs - p,
        {
            let mut q: usize = 0;
            while q < bs
                invariant
                    matrix.wf(),
                    tile.wf(),
                    tile.rows == bs,
                    tile.columns == bs,
                    bs == BLOCK_SIZE,
                    row0 == bi * bs,
                    column0 == bj * bs,
                    row0 < matrix.rows,
                    column0 < matrix.columns,
                    block == block_of(matrix@, matrix.rows as nat, matrix.columns as nat, bs as nat, bi as int, bj as int),
                    0 <= p < bs,
                    0 <= q <= bs,
                    forall|x: int, y: int| 0 <= x < bs && 0 <= y < bs ==> #[trigger] tile@[x][y] == if before(
                        x,
                        y,
                        p as int,
                        q as int,
                    ) {
                        block[x][y]
                    } else {
                        0
                    },
                decreases bs - q,
            {
                if p < matrix.rows - row0 && q < matrix.columns - column0 {
                    let v = matrix.get(row0 + p, column0 + q);
                    tile.set(p, q, v);
                }
                q = q + 1;
            }
            p = p + 1;
        }
        proof {
            crate::matmul::algebra::lemma_grid_ext(tile@, block, bs as nat, bs as nat);
        }
        tile
    }

    /// Cut `matrix` into blocks of `BLOCK_SIZE` x `BLOCK_SIZE`, the last row
    /// and column of blocks padded with zeros.
    pub fn from_matrix(matrix: Matrix) -> (r: Self)
        requires
            matrix.wf(),
            matrix.rows + BLOCK_SIZE <= usize::MAX,
            matrix.columns + BLOCK_SIZE <= usize::MAX,
        ensures
            r.wf(),
            r.rows == matrix.rows,
            r.columns == matrix.columns,
            r.blocks_down == blocks_for(matrix.rows as nat, BLOCK_SIZE as nat),
            r.blocks_right == blocks_for(matrix.columns as nat, BLOCK_SIZE as nat),
            r.block_rows == BLOCK_SIZE,
            r.block_columns == BLOCK_SIZE,
            r@ == matrix@,
    {
        let bs = BLOCK_SIZE;
        let rows = matrix.rows;
        let columns = matrix.columns;
        let blocks_down = if rows % bs == 0 { rows / bs } else { rows / bs + 1 };
        let blocks_right = if columns % bs == 0 { columns / bs } else { columns / bs + 1 };
        proof {
            lemma_blocks_cover(rows as nat, bs as nat);
            lemma_blocks_cover(columns as nat, bs as nat);
        }
        let mut data: Vec<Matrix> = Vec::new();
        let mut bi: usize = 0;
        while bi < blocks_down
            invariant
                matrix.wf(),
                bs == BLOCK_SIZE,
                rows == matrix.rows,
                columns == matrix.columns,
                blocks_down == blocks_for(rows as nat, bs as nat),
                blocks_right == blocks_for(columns as nat, bs as nat),
                forall|b: int| 0 <= b < blocks_down ==> #[trigger] (b * bs) < rows,
                forall|b: int| 0 <= b < blocks_right ==> #[trigger] (b * bs) < columns,
                0 <= bi <= blocks_down,
                data@.len() == bi * blocks_right,
                Self::blocks_wf(data@, bs as nat, bs as nat),
                forall|t: int| 0 <= t < data@.len() ==> (#[trigger] data@[t])@ == block_of(
                    matrix@,
                    rows as nat,
                    columns as nat,
                    bs as nat,
                    t / blocks_right as int,
                    t % blocks_right as int,
                ),
            decreases blocks_down - bi,
        {
            let mut bj: usize = 0;
            while bj < blocks_right
                invariant
                    matrix.wf(),
                    bs == BLOCK_SIZE,
                    rows == matrix.rows,
                    columns == matrix.columns,
                    blocks_down == blocks_for(rows as nat, bs as nat),
                    blocks_right == blocks_for(columns as nat, bs as nat),
                    forall|b: int| 0 <= b < blocks_down ==> #[trigger] (b * bs) < rows,
                    forall|b: int| 0 <= b < blocks_right ==> #[trigger] (b * bs) < columns,
                    0 <= bi < blocks_down,
                    0 <= bj <= blocks_right,
                    data@.len() == bi * blocks_right + bj,
                    Self::blocks_wf(data@, bs as nat, bs as nat),
                    forall|t: int| 0 <= t < data@.len() ==> (#[trigger] data@[t])@ == block_of(
                        matrix@,
                        rows as nat,
                        columns as nat,
                        bs as nat,
                        t / blocks_right as int,
                        t % blocks_right as int,
                    ),
                decreases blocks_right - bj,
            {
                assert((bi as int * bs) < rows);
                assert((bj as int * bs) < columns);
                let tile = Self::cut_block(&matrix, bi, bj);
                proof {
                    lemma_block_coordinates(bi as int, bj as int, blocks_right as int);
                }
                data.push(tile);
                bj = bj + 1;
            }
            proof {
                assert((bi + 1) * blocks_right == bi * blocks_right + blocks_right) by (nonlinear_arith);
            }
            bi = bi + 1;
        }
        let r = Self {
            rows,
            columns,
            blocks_right,
            blocks_down,
            data,
            block_rows: bs,
            block_columns: bs,
        };
        proof {
            vstd::arithmetic::mul::lemma_mul_is_commutative(blocks_down as int, blocks_right as int);
            assert forall|i: int, j: int| 0 <= i < r.padded_rows() && 0 <= j < r.padded_columns()
                implies #[trigger] r.cell(i, j) == if i < rows && j < columns { matrix@[i][j] } else { 0 } by {
                lemma_cell_in_range(r, i, j);
                let bi = i / bs as int;
                let bj = j / bs as int;
                lemma_block_coordinates(bi, bj, blocks_right as int);
            }
            assert forall|i: int| 0 <= i < rows implies #[trigger] r@[i] =~= matrix@[i] by {
                assert forall|j: int| 0 <= j < columns implies r@[i][j] == matrix@[i][j] by {
                    assert(r.cell(i, j) == matrix@[i][j]);
                }
            }
            assert(r@ =~= matrix@);
        }
        r
    }
}

impl TileMatrix {
    /// The logical grid of this matrix as one row-major matrix, without padding.
    pub fn to_matrix(&self) -> (r: Matrix)
        requires
            self.wf(),
            self.rows * self.columns <= usize::MAX,
        ensures
            r.wf(),
            r.rows == self.rows,
            r.columns == self.columns,
            !r.aligned,
            r@ == self@,
    {
        let rows = self.rows;
        let columns = self.columns;
        let mut data: Vec<i64> = Vec::new();
        let mut i: usize = 0;
        while i < rows
            invariant
                self.wf(),
                rows == self.rows,
                columns == self.columns,
                rows * columns <= usize::MAX,
                0 <= i <= rows,
                data@.len() == i * columns,
                forall|p: int, q: int| 0 <= p < i && 0 <= q < columns ==> #[trigger] data@[p * columns + q] == self.cell(p, q),
            decreases rows - i,
        {
            let mut j: usize = 0;
            while j < columns
                invariant
                    self.wf(),
                    rows == self.rows,
                    columns == self.columns,
                    rows * columns <= usize::MAX,
                    0 <= i < rows,
                    0 <= j <= columns,
                    data@.len() == i * columns + j,
                    forall|p: int, q: int| 0 <= p < i && 0 <= q < columns ==> #[trigger] data@[p * columns + q] == self.cell(p, q),
                    forall|q: int| 0 <= q < j ==> #[trigger] data@[i * columns + q] == self.cell(i as int, q),
                decreases columns - j,
            {
                proof {
                    lemma_cell_in_range(*self, i as int, j as int);
                    assert(self.data@.len() == self.data.len());
                }
                let bi = i / self.block_rows;
                let bj = j / self.block_columns;
                let t = bi * self.blocks_right + bj;
                let v = self.data[t].get(i % self.block_rows, j % self.block_columns);
                let ghost prev = data@;
                data.push(v);
                proof {
                    assert forall|p: int, q: int| 0 <= p < i && 0 <= q < columns implies #[trigger] data@[p * columns + q] == self.cell(p, q) by {
                        crate::matmul::matrix::standard::lemma_offset_in_bounds(p, q, i as int, columns as int);
                        assert(prev[p * columns + q] == self.cell(p, q));
                    }
                }
                j = j + 1;
            }
            proof {
                assert((i + 1) * columns == i * columns + columns) by (nonlinear_arith);
                assert forall|p: int, q: int| 0 <= p < i + 1 && 0 <= q < columns implies #[trigger] data@[p * columns + q] == self.cell(p, q) by {
                    if p < i {
                        crate::matmul::matrix::standard::lemma_offset_in_bounds(p, q, i as int, columns as int);
                    }
                }
            }
            i = i + 1;
        }
        proof {
            assert((rows * columns) as int == rows * columns);
        }
        let r = Matrix::new(rows, columns, data);
        proof {
            assert forall|p: int, q: int| 0 <= p < rows && 0 <= q < columns implies #[trigger] r@[p][q] == self@[p][q] by {
                assert(data@[p * columns + q] == self.cell(p, q));
            }
            crate::matmul::algebra::lemma_grid_ext(r@, self@, rows as nat, columns as nat);
        }
        r
    }
}

/// Two well-formed matrices of one size with the same grid hold the same storage.
pub proof fn lemma_same_grid_same_data(x: Matrix, y: Matrix)
    requires
        x.wf(),
        y.wf(),
        x.rows == y.rows,
        x.columns == y.columns,
        x@ == y@,
    ensures
        x.data@ == y.data@,
{
    let columns = x.columns as int;
    assert forall|o: int| 0 <= o < x.data@.len() implies x.data@[o] == y.data@[o] by {
        assert(columns > 0) by (nonlinear_arith)
            requires 0 <= o < x.rows * columns, columns >= 0, x.rows >= 0;
        lemma_fundamental_div_mod(o, columns);
        let i = o / columns;
        let j = o % columns;
        assert(0 <= i < x.rows) by (nonlinear_arith)
            requires o == columns * i + j, 0 <= j < columns, 0 <= o < x.rows * columns;
        assert(i * columns + j == o) by (nonlinear_arith)
            requires o == columns * i + j;
        assert(x@[i][j] == y@[i][j]);
        assert(x@[i][j] == x.data@[o] as int);
        assert(y@[i][j] == y.data@[o] as int);
    }
    assert(x.data@ =~= y.data@);
}

/// Cutting a matrix into blocks and reassembling the logical grid from the
/// blocks, padding left out, gives back exactly the entries it was cut from.
pub proof fn law_tile_round_trip(m: Matrix, tiles: TileMatrix, back: Matrix)
    requires
        m.wf(),
        back.wf(),
        tiles@ == m@,
        back@ == tiles@,
        back.rows == m.rows,
        back.columns == m.columns,
    ensures
        back.data@ == m.data@,
{
    lemma_same_grid_same_data(back, m);
}

/// Entry `(p, q)` of a block filled by `Matrix::random` with `columns` columns.
pub open spec fn block_pattern(p: int, q: int, columns: nat) -> int {
    pattern(p * columns + q, columns % 4 == 0)
}

impl TileMatrix {
    /// Zero the entries of `tile` that lie past `rows` x `columns` when the
    /// tile sits at row `row0` and column `column0` of the whole grid.
    fn clear_padding(tile: &mut Matrix, row0: usize, column0: usize, rows: usize, columns: usize)
        requires
            old(tile).wf(),
            row0 + old(tile).rows <= usize::MAX,
            column0 + old(tile).columns <= usize::MAX,
        ensures
            final(tile).wf(),
            final(tile).rows == old(tile).rows,
            final(tile).columns == old(tile).columns,
            final(tile).aligned == old(tile).aligned,
            forall|p: int, q: int| 0 <= p < old(tile).rows && 0 <= q < old(tile).columns ==> #[trigger] final(tile)@[p][q]
                == if row0 + p < rows && column0 + q < columns { old(tile)@[p][q] } else { 0 },
    {
        let ghost start = tile@;
        let tr = tile.rows;
        let tc = tile.columns;
        let mut p: usize = 0;
        while p < tr
            invariant
                tile.wf(),
                tile.rows == tr,
                tile.columns == tc,
                tile.aligned == old(tile).aligned,
                start == old(tile)@,
                old(tile).rows == tr,
                old(tile).columns == tc,
                row0 + tr <= usize::MAX,
                column0 + tc <= usize::MAX,
                0 <= p <= tr,
                forall|x: int, y: int| 0 <= x < tr && 0 <= y < tc ==> #[trigger] tile@[x][y] == if x < p && !(row0 + x
                    < rows && column0 + y < columns) {
                    0
                } else {
                    start[x][y]
                },
            decreases tr - p,
        {
            let mut q: usize = 0;
            while q < tc
                invariant
                    tile.wf(),
                    tile.rows == tr,
                    tile.columns == tc,
                    tile.aligned == old(tile).aligned,
                    start == old(tile)@,
                    old(tile).rows == tr,
                    old(tile).columns == tc,
                    row0 + tr <= usize::MAX,
                    column0 + tc <= usize::MAX,
                    0 <= p < tr,
                    0 <= q <= tc,
                    forall|x: int, y: int| 0 <= x < tr && 0 <= y < tc ==> #[trigger] tile@[x][y] == if before(
                        x,
                        y,
                        p as int,
                        q as int,
                    ) && !(row0 + x < rows && column0 + y < columns) {
                        0
                    } else {
                        start[x][y]
                    },
                decreases tc - q,
            {
                if row0 + p >= rows || column0 + q >= columns {
                    tile.set(p, q, 0);
                }
                q = q + 1;
            }
            p = p + 1;
        }
    }

    /// Create a matrix of `blocks_down` x `blocks_right` blocks, each of
    /// `ceil(rows / blocks_down)` x `ceil(columns / blocks_right)` entries and
    /// filled by `Matrix::random`, with the padding zeroed.
    pub fn random(rows: usize, columns: usize, blocks_right: usize, blocks_down: usize) -> (r: Self)
        requires
            blocks_right > 0,
            blocks_down > 0,
            blocks_right * blocks_down <= usize::MAX,
            blocks_for(rows as nat, blocks_down as nat) * blocks_down <= usize::MAX,
            blocks_for(columns as nat, blocks_right as nat) * blocks_right <= usize::MAX,
            blocks_for(rows as nat, blocks_down as nat) * blocks_for(columns as nat, blocks_right as nat) <= usize::MAX,
            blocks_for(rows as nat, blocks_down as nat) * blocks_for(columns as nat, blocks_right as nat) <= i64::MAX,
        ensures
            r.wf(),
            r.rows == rows,
            r.columns == columns,
            r.blocks_right == blocks_right,
            r.blocks_down == blocks_down,
            r.block_rows == blocks_for(rows as nat, blocks_down as nat),
            r.block_columns == blocks_for(columns as nat, blocks_right as nat),
            forall|i: int, j: int| 0 <= i < rows && 0 <= j < columns ==> #[trigger] r@[i][j] == block_pattern(
                i % r.block_rows as int,
                j % r.block_columns as int,
                r.block_columns as nat,
            ),
    {
        proof {
            let rb = blocks_for(rows as nat, blocks_down as nat);
            let cb = blocks_for(columns as nat, blocks_right as nat);
            assert(rb <= rb * blocks_down) by (nonlinear_arith)
                requires blocks_down > 0;
            assert(cb <= cb * blocks_right) by (nonlinear_arith)
                requires blocks_right > 0;
            assert(blocks_right * blocks_down > 0) by (nonlinear_arith)
                requires blocks_right > 0, blocks_down > 0;
        }
        let r = if rows % blocks_down == 0 { rows / blocks_down } else { rows / blocks_down + 1 };
        let c = if columns % blocks_right == 0 { columns / blocks_right } else { columns / blocks_right + 1 };
        let n = blocks_right * blocks_down;
        let mut data: Vec<Matrix> = Vec::new();
        let mut t: usize = 0;
        while t < n
            invariant
                0 <= t <= n,
                n == blocks_right * blocks_down,
                blocks_right > 0,
                r * blocks_down <= usize::MAX,
                c * blocks_right <= usize::MAX,
                r * c <= i64::MAX,
                r * c <= usize::MAX,
                data@.len() == t,
                Self::blocks_wf(data@, r as nat, c as nat),
                forall|s: int, p: int, q: int| 0 <= s < t && 0 <= p < r && 0 <= q < c ==> #[trigger] data@[s]@[p][q]
                    == if (s / blocks_right as int) * r + p < rows && (s % blocks_right as int) * c + q < columns {
                        block_pattern(p, q, c as nat)
                    } else {
                        0
                    },
            decreases n - t,
        {
            let bi = t / blocks_right;
            let bj = t % blocks_right;
            proof {
                vstd::arithmetic::div_mod::lemma_fundamental_div_mod(t as int, blocks_right as int);
                assert(bi < blocks_down) by (nonlinear_arith)
                    requires t == blocks_right * bi + bj, 0 <= bj, t < blocks_right * blocks_down, blocks_right > 0;
                assert(bi * r + r <= r * blocks_down) by (nonlinear_arith)
                    requires bi < blocks_down, r >= 0;
                assert(bj * c + c <= c * blocks_right) by (nonlinear_arith)
                    requires bj < blocks_right, c >= 0;
            }
            let mut tile = Matrix::random(r, c);
            Self::clear_padding(&mut tile, bi * r, bj * c, rows, columns);
            proof {
                assert forall|p: int, q: int| 0 <= p < r && 0 <= q < c implies #[trigger] tile@[p][q]
                    == if (bi * r) + p < rows && (bj * c) + q < columns {
                        block_pattern(p, q, c as nat)
                    } else {
                        0
                    } by {
                    crate::matmul::matrix::standard::lemma_offset_in_bounds(p, q, r as int, c as int);
                }
            }
            data.push(tile);
            t = t + 1;
        }
        let ghost literal = Self { rows, columns, blocks_right, blocks_down, data, block_rows: r, block_columns: c };
        proof {
            lemma_blocks_cover(rows as nat, blocks_down as nat);
            lemma_blocks_cover(columns as nat, blocks_right as nat);
            vstd::arithmetic::mul::lemma_mul_is_commutative(r as int, blocks_down as int);
            vstd::arithmetic::mul::lemma_mul_is_commutative(c as int, blocks_right as int);
            assert(data@[0].rows == r);
            assert forall|i: int, j: int| 0 <= i < literal.padded_rows() && 0 <= j < literal.padded_columns()
                implies #[trigger] literal.cell(i, j) == if i < rows && j < columns {
                    block_pattern(i % r as int, j % c as int, c as nat)
                } else {
                    0
                } by {
                lemma_cell_in_range(literal, i, j);
                lemma_block_coordinates(i / r as int, j / c as int, blocks_right as int);
            }
        }
        let ret = Self::new_with_size(rows, columns, blocks_right, blocks_down, data);
        proof {
            assert forall|i: int, j: int| 0 <= i < rows && 0 <= j < columns implies #[trigger] ret@[i][j] == block_pattern(
                i % r as int,
                j % c as int,
                c as nat,
            ) by {
                assert(literal.cell(i, j) == ret.cell(i, j));
            }
        }
        ret
    }
}

/// `ceil(n / d)` blocks of `d` cover `n`, and no fewer do.
pub proof fn lemma_blocks_cover(n: nat, d: nat)
    requires
        d > 0,
    ensures
        n <= blocks_for(n, d) * d,
        blocks_for(n, d) * d < n + d,
        forall|b: int| 0 <= b < blocks_for(n, d) ==> #[trigger] (b * d) < n,
{
    lemma_fundamental_div_mod(n as int, d as int);
    let q = n / d;
    let r = n % d;
    assert(n == d * q + r);
    assert(0 <= r < d);
    if r == 0 {
        assert(blocks_for(n, d) * d == n) by (nonlinear_arith)
            requires n == d * q + r, r == 0, blocks_for(n, d) == q;
    } else {
        assert(blocks_for(n, d) * d == n - r + d) by (nonlinear_arith)
            requires n == d * q + r, blocks_for(n, d) == q + 1;
    }
    assert forall|b: int| 0 <= b < blocks_for(n, d) implies #[trigger] (b * d) < n by {
        assert(b * d <= (blocks_for(n, d) - 1) * d) by (nonlinear_arith)
            requires b <= blocks_for(n, d) - 1, d > 0;
        assert((blocks_for(n, d) - 1) * d == blocks_for(n, d) * d - d) by (nonlinear_arith);
    }
}

/// Entry `(I * d + p)` of a run of blocks of `d` lies at offset `p` of block `I`.
pub proof fn lemma_block_coordinates(bi: int, p: int, d: int)
    requires
        d > 0,
        0 <= p < d,
    ensures
        (bi * d + p) / d == bi,
        (bi * d + p) % d == p,
{
    lemma_fundamental_div_mod_converse(bi * d + p, d, bi, p);
}

/// An entry of the grid the blocks cover lies in a block of `data`, at an
/// offset inside the block.
pub proof fn lemma_cell_in_range(m: TileMatrix, i: int, j: int)
    requires
        0 <= i < m.padded_rows(),
        0 <= j < m.padded_columns(),
    ensures
        m.block_rows > 0,
        m.block_columns > 0,
        0 <= i / (m.block_rows as int) < m.blocks_down,
        0 <= j / (m.block_columns as int) < m.blocks_right,
        0 <= i % (m.block_rows as int) < m.block_rows,
        0 <= j % (m.block_columns as int) < m.block_columns,
        i == (i / (m.block_rows as int)) * m.block_rows + i % (m.block_rows as int),
        j == (j / (m.block_columns as int)) * m.block_columns + j % (m.block_columns as int),
        0 <= m.tile_index(i, j) < m.blocks_right * m.blocks_down,
{
    let br = (m.block_rows as int);
    let bc = (m.block_columns as int);
    let bd = m.blocks_down as int;
    let bk = m.blocks_right as int;
    assert(br > 0) by (nonlinear_arith)
        requires 0 <= i < bd * br, bd >= 0, br >= 0;
    assert(bc > 0) by (nonlinear_arith)
        requires 0 <= j < bk * bc, bk >= 0, bc >= 0;
    lemma_fundamental_div_mod(i, br);
    lemma_fundamental_div_mod(j, bc);
    let qi = i / br;
    let qj = j / bc;
    assert(0 <= i % br < br);
    assert(0 <= j % bc < bc);
    assert(0 <= qi < bd) by (nonlinear_arith)
        requires i == br * qi + i % br, 0 <= i % br < br, 0 <= i < bd * br, br > 0;
    assert(0 <= qj < bk) by (nonlinear_arith)
        requires j == bc * qj + j % bc, 0 <= j % bc < bc, 0 <= j < bk * bc, bc > 0;
    assert(0 <= qi * bk + qj < bk * bd) by (nonlinear_arith)
        requires 0 <= qi < bd, 0 <= qj < bk;
}

} // verus!
