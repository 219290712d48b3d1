use matmul::matmul::matrix::simd::SimdMatrix;
use matmul::matmul::matrix::standard::Matrix;
use matmul::matmul::matrix::tiled::{TileMatrix, BLOCK_SIZE};
use matmul::matmul::matrix::transposed::TransposedMatrix;
use matmul::matmul::{
    blocked, dot_lanes, iter, naive, naive_reordered, naive_simd, naive_transposed, naive_unchecked, tiled, tiled_rayon,
};

/// A lane-packed matrix with the given entries in row-major order.
fn packed(rows: usize, columns: usize, values: Vec<i64>) -> Matrix {
    let groups: Vec<[i64; 4]> = values.chunks(4).map(|g| [g[0], g[1], g[2], g[3]]).collect();
    Matrix::new_aligned(rows, columns, groups)
}

fn entries(m: &Matrix) -> Vec<i64> {
    m.data.clone()
}

/// Runs every kernel on `a * b` and checks each result against `expected`.
fn check_every_kernel(a: &Matrix, b: &Matrix, expected: &[i64]) {
    let rows = a.rows;
    let columns = b.columns;
    let bt = TransposedMatrix::from_matrix(b.clone());

    let mut c = Matrix::zero(rows, columns);
    naive::mult(a, b, &mut c);
    assert_eq!(entries(&c), expected);

    let mut c = Matrix::zero(rows, columns);
    naive_unchecked::mult(a, b, &mut c);
    assert_eq!(entries(&c), expected);

    let mut c = Matrix::zero(rows, columns);
    naive_reordered::mult(a, b, &mut c);
    assert_eq!(entries(&c), expected);

    let mut c = Matrix::zero(rows, columns);
    naive_simd::mult(a, b, &mut c);
    assert_eq!(entries(&c), expected);

    let mut c = Matrix::zero(rows, columns);
    naive_transposed::mult(a, &bt, &mut c);
    assert_eq!(entries(&c), expected);

    let mut c = Matrix::zero(rows, columns);
    blocked::mult(a, &bt, &mut c);
    assert_eq!(entries(&c), expected);

    let mut c = Matrix::zero(rows, columns);
    iter::mult(a, &bt, &mut c);
    assert_eq!(entries(&c), expected);

    let mut c = Matrix::zero(rows, columns);
    dot_lanes::mult(a, &bt, &mut c);
    assert_eq!(entries(&c), expected);

    let a_t = TileMatrix::from_matrix(a.clone());
    let b_t = TileMatrix::from_matrix(b.clone());

    let mut c_t = TileMatrix::from_matrix(Matrix::zero(rows, columns));
    tiled::mult(&a_t, &b_t, &mut c_t);
    assert_eq!(entries(&c_t.to_matrix()), expected);

    let mut c_t = TileMatrix::from_matrix(Matrix::zero(rows, columns));
    tiled_rayon::mult(&a_t, &b_t, &mut c_t);
    assert_eq!(entries(&c_t.to_matrix()), expected);
}

#[test]
fn test_equal() {
    let n = 256;

    let a = Matrix::random(n, n);
    let b = Matrix::random(n, n);
    let mut compare = Matrix::zero(n, n);
    naive::mult(&a, &b, &mut compare);

    let a_t = TileMatrix::from_matrix(a.clone());
    let b_t = TileMatrix::from_matrix(b.clone());
    let compare_t = TileMatrix::from_matrix(compare.clone());

    let mut res = Matrix::zero(n, n);
    let mut res_t = TileMatrix::from_matrix(res.clone());

    #[allow(non_snake_case)]
    let bT = TransposedMatrix::from_matrix(b.clone());

    naive_unchecked::mult(&a, &b, &mut res);
    assert_eq!(compare, res);
    res.reset();

    naive_reordered::mult(&a, &b, &mut res);
    assert_eq!(compare, res);
    res.reset();

    naive_simd::mult(&a, &b, &mut res);
    assert_eq!(compare, res);
    res.reset();

    naive_transposed::mult(&a, &bT, &mut res);
    assert_eq!(compare, res);
    res.reset();

    blocked::mult(&a, &bT, &mut res);
    assert_eq!(compare, res);
    res.reset();

    iter::mult(&a, &bT, &mut res);
    assert_eq!(compare, res);
    res.reset();

    tiled::mult(&a_t, &b_t, &mut res_t);
    assert_eq!(compare_t, res_t);
    res_t.reset();

    tiled_rayon::mult(&a_t, &b_t, &mut res_t);
    assert_eq!(compare_t, res_t);
    res_t.reset();

    dot_lanes::mult(&a, &bT, &mut res);
    assert_eq!(compare, res);
    res.reset();
}

#[test]
fn test_mult_4x4_4x4() {
    let a = packed(4, 4, vec![1; 16]);
    let b = packed(4, 4, vec![1; 16]);
    check_every_kernel(&a, &b, &[4; 16]);
}

#[test]
fn test_mult_8x4_4x8() {
    let a = packed(8, 4, (1..=32).collect());
    let b = packed(4, 8, (1..=32).collect());
    let expected: Vec<i64> = vec![
        170, 180, 190, 200, 210, 220, 230, 240,
        378, 404, 430, 456, 482, 508, 534, 560,
        586, 628, 670, 712, 754, 796, 838, 880,
        794, 852, 910, 968, 1026, 1084, 1142, 1200,
        1002, 1076, 1150, 1224, 1298, 1372, 1446, 1520,
        1210, 1300, 1390, 1480, 1570, 1660, 1750, 1840,
        1418, 1524, 1630, 1736, 1842, 1948, 2054, 2160,
        1626, 1748, 1870, 1992, 2114, 2236, 2358, 2480,
    ];
    check_every_kernel(&a, &b, &expected);
}

#[test]
fn naive_matches_hand_computed_product() {
    let a = Matrix::new(2, 3, vec![1, 2, 3, 4, 5, 6]);
    let b = Matrix::new(3, 2, vec![7, 8, 9, 10, 11, 12]);
    let mut c = Matrix::new(2, 2, vec![100, 100, 100, 100]);
    naive::mult(&a, &b, &mut c);
    assert_eq!(c.data, vec![58, 64, 139, 154]);
}

#[test]
fn accumulating_kernels_add_to_the_result() {
    let a = Matrix::new(2, 2, vec![1, 2, 3, 4]);
    let b = Matrix::new(2, 4, vec![1, 0, 0, 1, 0, 1, 1, 0]);
    let start = vec![10, 10, 10, 10, 20, 20, 20, 20];
    let expected = vec![11, 12, 12, 11, 23, 24, 24, 23];

    let mut c = Matrix::new(2, 4, start.clone());
    naive_unchecked::mult(&a, &b, &mut c);
    assert_eq!(c.data, expected);

    let mut c = Matrix::new(2, 4, start.clone());
    naive_reordered::mult(&a, &b, &mut c);
    assert_eq!(c.data, expected);

    let mut c = Matrix::new(2, 4, start.clone());
    blocked::mult(&a, &TransposedMatrix::from_matrix(b.clone()), &mut c);
    assert_eq!(c.data, expected);
}

#[test]
fn negative_entries_multiply_exactly() {
    let a = packed(4, 4, vec![-1, 2, -3, 4, 5, -6, 7, -8, 0, 1, 0, -1, 9, 9, -9, -9]);
    let b = packed(4, 4, vec![1, -1, 2, -2, 3, -3, 4, -4, 5, -5, 6, -6, 7, -7, 8, -8]);
    let mut reference = Matrix::zero(4, 4);
    naive::mult(&a, &b, &mut reference);
    assert_eq!(reference.data[0], -1 + 6 - 15 + 28);
    check_every_kernel(&a, &b, &reference.data);
}

#[test]
fn tiling_covers_uneven_sizes() {
    let rows = 300;
    let columns = 200;
    let m = Matrix::random(rows, columns);
    let t = TileMatrix::from_matrix(m.clone());
    assert_eq!(t.blocks_down, 3);
    assert_eq!(t.blocks_right, 2);
    assert_eq!(t.block_rows, BLOCK_SIZE);
    assert_eq!(t.block_columns, BLOCK_SIZE);
    assert_eq!(t.data.len(), 6);
    let back = t.to_matrix();
    assert_eq!(back.rows, rows);
    assert_eq!(back.columns, columns);
    assert_eq!(back.data, m.data);
    // padding of the last block row and column is zero
    let last = t.tile(2, 1);
    assert_eq!(last.get(BLOCK_SIZE - 1, BLOCK_SIZE - 1), 0);
    assert_eq!(last.get(0, 0), m.get(256, 128));
}

#[test]
fn tiling_of_exact_multiple_and_small_sizes() {
    let t = TileMatrix::from_matrix(Matrix::zero(256, 128));
    assert_eq!((t.blocks_down, t.blocks_right), (2, 1));
    let t = TileMatrix::from_matrix(Matrix::zero(4, 4));
    assert_eq!((t.blocks_down, t.blocks_right), (1, 1));
    let t = TileMatrix::from_matrix(Matrix::zero(129, 1));
    assert_eq!((t.blocks_down, t.blocks_right), (2, 1));
}

#[test]
fn tiled_product_with_padding() {
    let a = Matrix::random(130, 132);
    let b = Matrix::random(132, 136);
    let mut expected = Matrix::zero(130, 136);
    naive::mult(&a, &b, &mut expected);
    let a_t = TileMatrix::from_matrix(a);
    let b_t = TileMatrix::from_matrix(b);
    let mut c_t = TileMatrix::zero(130, 136, 2, 2);
    c_t = TileMatrix::from_matrix(c_t.to_matrix());
    tiled::mult(&a_t, &b_t, &mut c_t);
    assert_eq!(c_t.to_matrix().data, expected.data);
    let mut c_t = TileMatrix::from_matrix(Matrix::zero(130, 136));
    tiled_rayon::mult(&a_t, &b_t, &mut c_t);
    assert_eq!(c_t.to_matrix().data, expected.data);
}

#[test]
fn reset_zeroes_every_variant() {
    let mut m = Matrix::random(5, 7);
    m.reset();
    assert!(m.data.iter().all(|&v| v == 0));

    let mut t = TransposedMatrix::random(6, 8);
    t.reset();
    assert!(t.data.iter().all(|&v| v == 0));

    let mut tiles = TileMatrix::from_matrix(Matrix::random(130, 3));
    tiles.reset();
    assert!(tiles.data.iter().all(|b| b.data.iter().all(|&v| v == 0)));

    let mut s = SimdMatrix::from_matrix(Matrix::random(3, 8));
    s.reset();
    assert!(s.data.iter().all(|g| *g == [0, 0, 0, 0]));
}

#[test]
fn alignment_follows_column_count() {
    assert!(Matrix::zero(4, 4).is_aligned());
    assert!(!Matrix::zero(5, 5).is_aligned());
    assert!(Matrix::random(3, 8).is_aligned());
    assert!(!Matrix::random(3, 6).is_aligned());
    assert!(!Matrix::new(2, 4, vec![0; 8]).is_aligned());
    assert!(TransposedMatrix::zero(2, 4).is_aligned());
    assert!(!TransposedMatrix::new(2, 4, vec![0; 8]).is_aligned());
    assert!(TileMatrix::from_matrix(Matrix::zero(4, 4)).is_aligned());
}

#[test]
fn random_pattern_values() {
    let m = Matrix::random(2, 4);
    assert_eq!(m.data, vec![0, 0, 0, 0, 1, 1, 1, 1]);
    let m = Matrix::random(2, 3);
    assert_eq!(m.data, vec![0, 1, 2, 3, 4, 5]);
}

#[test]
fn transpose_stores_columns_contiguously() {
    let m = Matrix::new(2, 3, vec![1, 2, 3, 4, 5, 6]);
    let t = TransposedMatrix::from_matrix(m);
    assert_eq!(t.data, vec![1, 4, 2, 5, 3, 6]);
    assert_eq!(t.get(1, 2), 6);
    assert_eq!(t.get(0, 1), 2);
}

#[test]
fn simd_matrix_packs_rows_into_lane_groups() {
    let m = Matrix::random(2, 8);
    let s = SimdMatrix::from_matrix(m);
    assert_eq!(s.rows, 2);
    assert_eq!(s.columns, 2);
    assert!(s.is_aligned());
    assert_eq!(s.data, vec![[0, 0, 0, 0], [1, 1, 1, 1], [2, 2, 2, 2], [3, 3, 3, 3]]);
    let direct = SimdMatrix::new(1, 1, vec![[1, 2, 3, 4]]);
    assert_eq!(direct.data[0], [1, 2, 3, 4]);
}

#[test]
fn new_aligned_flattens_groups() {
    let m = Matrix::new_aligned(2, 4, vec![[1, 2, 3, 4], [5, 6, 7, 8]]);
    assert!(m.is_aligned());
    assert_eq!(m.data, vec![1, 2, 3, 4, 5, 6, 7, 8]);
    assert_eq!(m.get(1, 2), 7);
}

#[test]
fn set_and_get_address_one_entry() {
    let mut m = Matrix::zero(3, 3);
    m.set(1, 2, 42);
    assert_eq!(m.get(1, 2), 42);
    assert_eq!(m.data[5], 42);
    assert_eq!(m.data.iter().filter(|&&v| v != 0).count(), 1);
}

#[test]
fn tile_matrix_new_takes_block_shape() {
    let blocks = vec![Matrix::zero(2, 3), Matrix::zero(2, 3), Matrix::zero(2, 3), Matrix::zero(2, 3)];
    let t = TileMatrix::new(2, 2, blocks.clone());
    assert_eq!((t.rows, t.columns), (4, 6));
    let t = TileMatrix::new_with_size(3, 5, 2, 2, blocks);
    assert_eq!((t.rows, t.columns), (3, 5));
}

#[test]
fn tile_matrix_zero_splits_evenly() {
    let t = TileMatrix::zero(10, 9, 3, 2);
    assert_eq!((t.block_rows, t.block_columns), (5, 3));
    assert_eq!(t.data.len(), 6);
    assert!(t.to_matrix().data.iter().all(|&v| v == 0));
}

#[test]
fn tile_matrix_random_fills_blocks_and_zeroes_padding() {
    let t = TileMatrix::random(7, 5, 2, 2);
    assert_eq!((t.block_rows, t.block_columns), (4, 3));
    let m = t.to_matrix();
    for i in 0..7 {
        for j in 0..5 {
            assert_eq!(m.get(i, j), ((i % 4) * 3 + j % 3) as i64);
        }
    }
    let last = t.tile(1, 1);
    for q in 0..3 {
        assert_eq!(last.get(3, q), 0);
    }
    for p in 0..4 {
        assert_eq!(last.get(p, 2), 0);
    }
    assert_eq!(last.get(0, 0), 0);
    assert_eq!(last.get(2, 1), 7);
}
