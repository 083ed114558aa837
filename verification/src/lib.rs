//! A feedforward neural network kernel: layered scalar nodes with sigmoid
//! activation, lazily memoized forward evaluation, and a pull-based
//! backpropagation protocol that accumulates gradients over a batch before
//! applying an averaged update.
//!
//! The scalar type is abstract: the network logic is verified for every
//! scalar that provides the arithmetic of [`sigmoid::Arith`] and the
//! activation of [`sigmoid::Sigmoid`]. Callers instantiate it with a
//! floating-point wrapper of their own.

pub mod network;
pub mod node;
pub mod sigmoid;
pub mod training_data;
pub mod util;
