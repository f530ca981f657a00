//! Offline calibration: splits, negative sampling, the grid search and its cache.

pub mod cache;
pub mod dataset;
pub mod grid;
pub mod metrics;
pub mod options;
pub mod sampling;
