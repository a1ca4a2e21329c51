//! Process metrics collection.
//!
//! Reading the operating system's per-process statistics is platform work
//! for the unverified shell; the library's part is the collector identity:
//! the moment the collector was created, from which the process start-time
//! gauge is derived.
use vstd::prelude::*;

use crate::timestamp::now_unix_millis;

verus! {

/// A collector of process-level metrics.  The unverified shell polls the
/// platform and builds the gauges and counters; this records when the
/// collector was made.
#[derive(Debug)]
pub struct ProcessMetricsCollector {
    /// The creation moment, in milliseconds since the Unix epoch.
    pub start_time_millis: i64,
}

impl ProcessMetricsCollector {
    /// Makes a new collector, recording the current time.
    pub fn new() -> Self {
        ProcessMetricsCollector { start_time_millis: now_unix_millis() }
    }

    /// The recorded creation moment, in milliseconds since the Unix epoch.
    pub fn start_time_millis(&self) -> (r: i64)
        ensures
            r == self.start_time_millis,
    {
        self.start_time_millis
    }
}

} // verus!
