//! Matrix storage layouts and the multiplication kernels over them.

pub mod algebra;
pub mod matrix;

pub mod naive;
pub mod naive_unchecked;
pub mod naive_reordered;
pub mod naive_transposed;
pub mod blocked;
pub mod naive_simd;
pub mod tiled;
pub mod tiled_rayon;
pub mod dot_lanes;
pub mod iter;
