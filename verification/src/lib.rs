//! An incremental sliding-window ordinary-least-squares regression engine
//! for streams of price ticks.
//!
//! A window of enriched entries is created once from a batch of ticks and
//! then advanced tick by tick: each advance folds the new tick into four
//! running sums, evicts entries that aged out of the window (correcting the
//! sums), keeps evicted entries that still belong to the newest tick's hour
//! bucket, recomputes the regression coefficients, and records the slope
//! found at the window's midpoint.
//!
//! Every double-precision value is carried as its IEEE 754 bit pattern in a
//! `u64`; the arithmetic itself is done by `rustc_apfloat` behind a small
//! trusted layer in `fbits`.

pub mod fbits;
pub mod scale;
pub mod engine;
pub mod laws;

pub use engine::PriceData;
pub use engine::RegressionData;
pub use engine::calculate_initial_regression;
pub use engine::update_regression_dataset;
