//! A verified training-execution engine for mini-batch optimization.
//!
//! The crate partitions a dataset into batches (optionally shuffled by a
//! deterministic seed and optionally split across worker slices), drives
//! training and validation epochs over those batches, accumulates gradients
//! across steps and devices, and retains a bounded number of checkpoints.
//! The numeric backend is out of scope: tensors are modelled by plain
//! integer values, and models, optimizers and batchers are traits whose
//! contracts the engine's proofs rely on.

pub mod batcher;
pub mod callback;
pub mod checkpoint;
pub mod conv;
pub mod dataloader;
pub mod epoch;
pub mod grads;
pub mod learner;
pub mod module;
pub mod optim;
pub mod shuffle;
pub mod simple;
pub mod tensor;
pub mod strategy;
pub mod transformer;
