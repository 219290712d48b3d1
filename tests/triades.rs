use matmul::triades::{
    add, add_itertools, copy, striad, vtriad, vtriad_itertools, vtriad_itertools_2, vtriad_rayon, vtriad_simd,
    vtriad_simd_rayon, NumType, ARRAY_SIZE,
};

fn array_equal<T: PartialEq + std::fmt::Debug>(a: &[T], b: &[T]) {
    assert_eq!(a.len(), b.len());
    for i in 0..a.len() {
        assert_eq!(a[i], b[i]);
    }
}

fn small_random_array(len: usize) -> Vec<NumType> {
    (0..len).map(|_| rand::random::<i32>() as NumType).collect()
}

#[test]
fn test_copy() {
    let mut dst = [0; 5];
    let src = [0, 1, 2, 3, 4];
    copy(&src, &mut dst);
    array_equal(&src, &dst)
}

#[test]
fn test_add() {
    let mut result = [0; 5];
    let a = [0, 1, 2, 3, 4];
    let b = [5, 4, 3, 2, 1];
    add(&mut result, &a, &b);
    array_equal(&result, &[5; 5]);
}

#[test]
fn test_add_itertools() {
    let mut result = vec![0; ARRAY_SIZE];
    let a = [0, 1, 2, 3, 4];
    let b = [5, 4, 3, 2, 1];
    add_itertools(&mut result, &a, &b);
    array_equal(&result, &[5; 5]);
}

#[test]
fn test_striad() {
    let mut result = [0; 5];
    let a = [0, 1, 2, 3, 4];
    let b = [5, 4, 3, 2, 1];
    striad(&mut result, &a, &b, 2);
    array_equal(&result, &[5, 6, 7, 8, 9]);
}

#[test]
fn test_vtriad() {
    let mut result = [0; 5];
    let a = [0, 1, 2, 3, 4];
    let b = [5, 4, 3, 2, 1];
    let c = [0, 1, 2, 3, 4];
    vtriad(&mut result, &a, &b, &c);
    array_equal(&result, &[5, 5, 7, 11, 17]);
}

#[test]
fn test_vtriad_itertools() {
    let mut result = vec![0; 5];
    let a = [0, 1, 2, 3, 4];
    let b = [5, 4, 3, 2, 1];
    let c = [0, 1, 2, 3, 4];
    vtriad_itertools(&mut result, &a, &b, &c);
    array_equal(&result, &[5, 5, 7, 11, 17]);

    let mut result_iter = vec![0 as NumType; ARRAY_SIZE];
    let mut result_std = vec![0 as NumType; ARRAY_SIZE];

    let x = small_random_array(ARRAY_SIZE);
    let y = small_random_array(ARRAY_SIZE);
    let z = small_random_array(ARRAY_SIZE);
    vtriad_itertools(&mut result_iter, &x, &y, &z);
    vtriad(&mut result_std, &x, &y, &z);
    array_equal(&result_std, &result_iter);
}

#[test]
fn test_vtriad_rayon() {
    let mut result = vec![0; 5];
    let a = [0, 1, 2, 3, 4];
    let b = [5, 4, 3, 2, 1];
    let c = [0, 1, 2, 3, 4];
    vtriad_rayon(&mut result, &a, &b, &c);
    array_equal(&result, &[5, 5, 7, 11, 17]);
}

#[test]
fn test_vtriad_simd() {
    let mut result = vec![0; 8];
    let a = [0, 1, 2, 3, 4, 5, 6, 7];
    let b = [5, 4, 3, 2, 1, 0, 1, 2];
    let c = [0, 1, 2, 3, 4, 5, 6, 7];
    vtriad_simd(&mut result, &a, &b, &c);
    array_equal(&result, &[5, 5, 7, 11, 17, 25, 37, 51]);
}

#[test]
fn test_vtriad_simd_rayon() {
    let mut result = vec![0; 8];
    let a = [0, 1, 2, 3, 4, 5, 6, 7];
    let b = [5, 4, 3, 2, 1, 0, 1, 2];
    let c = [0, 1, 2, 3, 4, 5, 6, 7];
    vtriad_simd_rayon(&mut result, &a, &b, &c);
    array_equal(&result, &[5, 5, 7, 11, 17, 25, 37, 51]);
}

#[test]
fn vtriad_itertools_2_stops_at_shortest_operand() {
    let mut result = vec![9; 6];
    let a = [1, 2, 3, 4];
    let b = [1, 1, 1, 1, 1];
    let c = [2, 2, 2, 2, 2, 2];
    vtriad_itertools_2(&mut result, &a, &b, &c);
    array_equal(&result, &[3, 5, 7, 9, 9, 9]);
}

#[test]
fn add_itertools_replaces_longer_contents() {
    let mut result = vec![7; 3];
    let a = [1, 2];
    let b = [10, 20, 30];
    add_itertools(&mut result, &a, &b);
    array_equal(&result, &[11, 22]);
}

#[test]
fn vtriad_rayon_matches_vtriad_on_long_arrays() {
    let n = 10_000;
    let x = small_random_array(n);
    let y = small_random_array(n);
    let z = small_random_array(n);
    let mut par = vec![1; 3];
    let mut seq = vec![0; n];
    vtriad_rayon(&mut par, &x, &y, &z);
    vtriad(&mut seq, &x, &y, &z);
    array_equal(&par, &seq);
}

#[test]
fn vtriad_simd_rayon_matches_vtriad_on_long_arrays() {
    let n = 4096;
    let x = small_random_array(n);
    let y = small_random_array(n);
    let z = small_random_array(n);
    let mut par = vec![0; n];
    let mut seq = vec![0; n];
    vtriad_simd_rayon(&mut par, &x, &y, &z);
    vtriad(&mut seq, &x, &y, &z);
    array_equal(&par, &seq);
}

#[test]
fn empty_arrays_are_fine() {
    let mut result: Vec<NumType> = vec![];
    vtriad(&mut result, &[], &[], &[]);
    vtriad_simd(&mut result, &[], &[], &[]);
    vtriad_rayon(&mut result, &[], &[], &[]);
    assert!(result.is_empty());
}
