//! A small feed-forward neural-network inference core: dense integer
//! matrices, fully-connected layers, and forward propagation through an
//! element-wise activation function.
//!
//! Matrix elements are `i64` values; callers may interpret them at any
//! fixed scale (for example hundredths of a unit). All arithmetic is exact
//! integer arithmetic, so the algebraic laws of the operations (stated as
//! proof functions) hold without tolerance.

pub mod activation;
pub mod laws;
pub mod layer;
pub mod matrix;
pub mod model;
pub mod network;
pub mod rng;
