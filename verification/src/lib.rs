//! A minimal multilayer feed-forward neural network trained by
//! backpropagation, built on a dense shape-checked matrix type.
//!
//! The numeric element type is abstracted behind the [`scalar::Scalar`]
//! trait, so every shape rule and every arithmetic step of the network is
//! stated and checked once, for any scalar a caller supplies.

pub mod activation;
pub mod matrix;
pub mod network;
pub mod scalar;
