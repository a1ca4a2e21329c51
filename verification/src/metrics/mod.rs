//! Concrete metrics.
pub use self::builder::MetricBuilder;
pub use self::counter::Counter;
pub use self::gauge::Gauge;
pub use self::histogram::Histogram;
pub use self::observed_counter::ObservedCounter;
pub use self::process::ProcessMetricsCollector;
pub use self::summary::Summary;

pub mod builder;
pub mod counter;
pub mod gauge;
pub mod histogram;
pub mod observed_counter;
pub mod process;
pub mod summary;
