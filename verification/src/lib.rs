//! Real-time pronunciation comparison: a banded dynamic-time-warping
//! alignment engine over per-frame acoustic features, the session state
//! machine that drives live capture around it, and the scoring rules that
//! turn an alignment into human-facing metrics.
//!
//! All feature values, weights, costs and scores are fixed-point integers
//! in milli-units (1000 = 1.0); millisecond quantities are carried in
//! milli-milliseconds (1000 = 1 ms) where sub-millisecond precision matters.

pub mod audio;
pub mod num;
pub mod pronunciation;
pub mod text;
pub mod transcription;
pub mod types;
pub mod ui;
