//! In-process metrics instrumentation: counters, gauges, histograms and
//! summaries, gathered into named families and rendered in the plaintext
//! exposition format.
//!
//! Floating-point quantities are carried everywhere as their IEEE-754 raw bit
//! patterns (`u64`), so that every decision the library makes about them —
//! classification, ordering, the integer fast path of counters, quantile
//! ranks — is exact integer logic.  Only the decimal rendering of a finite
//! value is left to the caller (see `MetricFamilies::to_text`).
pub mod aggregated_metrics;
pub mod atomic;
pub mod bucket;
pub mod error;
pub mod float_bits;
pub mod format;
pub mod label;
pub mod metric;
pub mod metrics;
pub mod order;
pub mod quantile;
pub mod registry;
pub mod render;
pub mod timestamp;

pub use error::{Error, ErrorKind};
pub use registry::{Gatherer, Registry};
