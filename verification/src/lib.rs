//! A feedforward neural network (multilayer perceptron) trained by
//! gradient-descent backpropagation, with pluggable per-layer activation
//! functions and a binary persistence format.
//!
//! Every scalar of the engine is carried as a `u64`. A [`scalar::ScalarOps`]
//! implementation gives those 64 bits their numeric meaning and supplies the
//! arithmetic; the engine itself — forward evaluation, backpropagation with
//! its two-phase compute-then-apply update, and the byte codec — is verified
//! once, for every such arithmetic.

pub mod activation;
pub mod codec;
pub mod network;
pub mod scalar;
