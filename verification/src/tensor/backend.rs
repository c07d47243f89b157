//! Compute backends: the interface and its CPU realizations.

pub mod cpu;
pub mod matrix;
pub mod traits;
