//! Permutation feature importance: the verified core.
//!
//! A feature's importance is measured by how much a model's score changes
//! when that feature's values are shuffled across samples. This crate holds
//! the parts of that computation whose correctness can be stated exactly:
//! the score kinds and their rules, the validation of inputs and options,
//! the drawing of uniform permutations, the shuffled working copies of a
//! matrix, and the trial loop that collects a model's predictions on them.
pub mod engine;
pub mod permute;
pub mod score;
