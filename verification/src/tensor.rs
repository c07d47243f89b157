//! Tensors, the index arithmetic of their row-major layout, and the backends
//! that compute on their buffers.

pub mod backend;
pub mod operators;
pub mod shape;
pub mod tensor;
pub mod view;
