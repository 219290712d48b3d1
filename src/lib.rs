//! Dense matrix multiplication kernels and streaming vector triads, each one
//! proved to compute the mathematical result it is named after.
//!
//! Entries are integers: every kernel is stated, and proved, against exact
//! integer arithmetic, with the precondition that each running sum it forms
//! fits in an `i64`.

pub mod matmul;
pub mod triades;
