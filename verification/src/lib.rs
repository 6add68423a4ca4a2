//! Concurrent feed aggregation core: takes each source's parse outcome,
//! normalizes the surviving entries to a uniform shape with fixed
//! fallbacks, and merges everything into one newest-first sequence,
//! collapsing total absence of data into a single "unavailable" signal.

pub mod config;
pub mod model;
pub mod normalize;
pub mod pipeline;
pub mod sort;
