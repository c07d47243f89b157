//! A small n-dimensional array library: row-major tensors whose arithmetic is
//! carried out by an interchangeable compute backend.

pub mod tensor;
