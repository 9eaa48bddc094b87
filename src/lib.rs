//! Fee prediction from a bounded rolling history of observed fee samples.
//!
//! - `window`: the fixed-capacity sample window and its eviction policy.
//! - `stats`: average, minimum and the inverse-dispersion confidence score.
//! - `predictor`: the scaled-average and minimum-observed fee predictions.
//! - `fee_data`: the fee record, its ingestion gateway and its predictions.
//!
//! Time and the signer's identity come from the host as plain values.

pub mod fee_data;
pub mod predictor;
pub mod sample;
pub mod stats;
pub mod window;

pub use fee_data::{
    initialize, predict_fee, predict_floor_fee, require_samples, same_key, store_fee_data, FeeData,
};
pub use predictor::{predict_floor, predict_scaled, scale_fee};
pub use sample::{ErrorCode, FeePrediction, FeeSample, PriorityLevel};
pub use stats::{calculate_average, calculate_confidence, calculate_minimum, field_of, SampleField};
pub use window::{SampleWindow, WINDOW_CAPACITY};
