//! The storage layouts: row-major, column-major, tiled and lane-packed.

pub mod simd;
pub mod standard;
pub mod tiled;
pub mod traits;
pub mod transposed;
