//! Metrics, in the Prometheus text format.

pub mod change;
pub mod counters;
pub mod exporter;
pub mod text_format;
