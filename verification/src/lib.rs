//! A small feed-forward neural network trainer.
//!
//! The crate fixes the shapes of all matrices, the order of every scalar
//! operation and the control protocol of a training session. The scalar
//! arithmetic itself is a parameter: see [`scalar::Scalar`].
pub mod backprop;
pub mod control;
pub mod determinism;
pub mod error;
pub mod matrix;
pub mod network;
pub mod scalar;
pub mod session;
pub mod training;
