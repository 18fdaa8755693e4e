//! Attention fusion: many named, ageing signals in, one weighted value out.
//!
//! A decision cycle runs three stages. Scoring gives every signal a
//! non-negative importance from its magnitude, its source type and its age.
//! Softmax turns the scores into weights. Aggregation sums the signal values
//! under those weights. `RustAttentionEngine::decide_fast` runs the three in
//! turn, `batch_decide` runs it over many cycles, and `normalize_signals`
//! repairs raw values beforehand.
//!
//! Every number is an IEEE 754 binary64 value, held as its bit pattern in a
//! `u64`. What the pattern alone decides (sign, class, order, clamping, the
//! maximum) is computed here and proved exact. What rounds (sums, products,
//! quotients, exponentials) is put to an arithmetic unit that the caller
//! supplies, and the contracts state, operation by operation, what was asked
//! of that unit and how the answers were combined.

pub mod aggregate;
pub mod arithmetic;
pub mod binary64;
pub mod engine;
pub mod pipeline;
pub mod sanitize;
pub mod scoring;
pub mod signal_map;
pub mod softmax;
pub mod source;

pub use arithmetic::Operation;
pub use engine::RustAttentionEngine;
pub use pipeline::batch_decide;
pub use sanitize::normalize_signals;
pub use signal_map::SignalMap;
