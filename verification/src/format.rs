//! A writer that pairs an output sink with a formatter.
use vstd::prelude::*;

verus! {

/// A metric writer: an output sink together with the formatter that turns
/// metrics into bytes for it.  Driving the pair against a live sink is the
/// unverified shell's job; this type only carries them.
pub struct MetricWriter<W, F> {
    /// The output sink.
    pub writer: W,
    /// The formatter.
    pub formatter: F,
}

impl<W, F> MetricWriter<W, F> {
    /// Makes a writer from a sink and a formatter.
    pub fn new(writer: W, formatter: F) -> (r: Self)
        ensures
            r == (MetricWriter { writer, formatter }),
    {
        MetricWriter { writer, formatter }
    }

    /// Consumes the pair and returns the sink.
    pub fn into_writer(self) -> (r: W)
        ensures
            r == self.writer,
    {
        self.writer
    }
}

} // verus!
