//! A common builder that seeds the per-kind builders with shared settings.
use vstd::prelude::*;

use crate::metrics::counter::CounterBuilder;
use crate::metrics::gauge::GaugeBuilder;
use crate::metrics::histogram::HistogramBuilder;
use crate::metrics::observed_counter::ObservedCounterBuilder;
use crate::metrics::summary::SummaryBuilder;

verus! {

/// Common builder for the various metrics: the namespace, subsystem and
/// labels it holds are handed to every per-kind builder it makes.
#[derive(Debug, Clone)]
pub struct MetricBuilder {
    /// The optional namespace part of the metric name.
    pub namespace: Option<String>,
    /// The optional subsystem part of the metric name.
    pub subsystem: Option<String>,
    /// The label pairs handed to every derived builder.
    pub labels: Vec<(String, String)>,
}

impl MetricBuilder {
    /// Makes an empty builder.
    pub fn new() -> (r: Self)
        ensures
            r.namespace is None,
            r.subsystem is None,
            r.labels@.len() == 0,
    {
        MetricBuilder { namespace: None, subsystem: None, labels: Vec::new() }
    }

    /// Sets the namespace part of the metric name.
    pub fn namespace(self, namespace: &str) -> (r: Self)
        ensures
            r == (Self { namespace: r.namespace, ..self }),
            r.namespace is Some && r.namespace->0@ == namespace@,
    {
        Self { namespace: Some(namespace.to_owned()), ..self }
    }

    /// Sets the subsystem part of the metric name.
    pub fn subsystem(self, subsystem: &str) -> (r: Self)
        ensures
            r == (Self { subsystem: r.subsystem, ..self }),
            r.subsystem is Some && r.subsystem->0@ == subsystem@,
    {
        Self { subsystem: Some(subsystem.to_owned()), ..self }
    }

    /// Adds a label; the name is validated when a metric is built.
    pub fn label(self, name: &str, value: &str) -> (r: Self)
        ensures
            r == (Self { labels: r.labels, ..self }),
            r.labels@.len() == self.labels@.len() + 1,
            forall|i: int| 0 <= i < self.labels@.len() ==> r.labels@[i] == self.labels@[i],
            r.labels@.last().0@ == name@ && r.labels@.last().1@ == value@,
    {
        let mut labels = self.labels;
        labels.push((name.to_owned(), value.to_owned()));
        Self { labels, ..self }
    }

    /// Copies the held label pairs.
    fn labels_copy(&self) -> (r: Vec<(String, String)>)
        ensures
            r@ == self.labels@,
    {
        let mut out: Vec<(String, String)> = Vec::new();
        let mut i: usize = 0;
        while i < self.labels.len()
            invariant
                i <= self.labels@.len(),
                out@.len() == i as int,
                forall|k: int| 0 <= k < i ==> out@[k] == self.labels@[k],
            decreases self.labels@.len() - i,
        {
            let pair = &self.labels[i];
            out.push((pair.0.clone(), pair.1.clone()));
            i = i + 1;
        }
        proof {
            assert(out@ =~= self.labels@);
        }
        out
    }

    /// Copies an optional name part.
    fn opt_copy(o: &Option<String>) -> (r: Option<String>)
        ensures
            r == *o,
    {
        match o {
            Some(s) => Some(s.clone()),
            None => None,
        }
    }

    /// Makes a `CounterBuilder` that inherits the settings of this builder.
    pub fn counter(&self, name: &str) -> (r: CounterBuilder)
        ensures
            r.namespace == self.namespace,
            r.subsystem == self.subsystem,
            r.name@ == name@,
            r.help is None,
            r.labels@ == self.labels@,
    {
        CounterBuilder {
            namespace: Self::opt_copy(&self.namespace),
            subsystem: Self::opt_copy(&self.subsystem),
            name: name.to_owned(),
            help: None,
            labels: self.labels_copy(),
        }
    }

    /// Makes an `ObservedCounterBuilder` that inherits the settings of this
    /// builder.
    pub fn observed_counter(&self, name: &str) -> (r: ObservedCounterBuilder)
        ensures
            r.namespace == self.namespace,
            r.subsystem == self.subsystem,
            r.name@ == name@,
            r.help is None,
            r.labels@ == self.labels@,
    {
        ObservedCounterBuilder {
            namespace: Self::opt_copy(&self.namespace),
            subsystem: Self::opt_copy(&self.subsystem),
            name: name.to_owned(),
            help: None,
            labels: self.labels_copy(),
        }
    }

    /// Makes a `GaugeBuilder` that inherits the settings of this builder.
    pub fn gauge(&self, name: &str) -> (r: GaugeBuilder)
        ensures
            r.namespace == self.namespace,
            r.subsystem == self.subsystem,
            r.name@ == name@,
            r.help is None,
            r.labels@ == self.labels@,
            r.initial_value == crate::float_bits::ZERO_BITS,
    {
        GaugeBuilder {
            namespace: Self::opt_copy(&self.namespace),
            subsystem: Self::opt_copy(&self.subsystem),
            name: name.to_owned(),
            help: None,
            labels: self.labels_copy(),
            initial_value: crate::float_bits::ZERO_BITS,
        }
    }

    /// Makes a `HistogramBuilder` that inherits the settings of this
    /// builder.
    pub fn histogram(&self, name: &str) -> (r: HistogramBuilder)
        ensures
            r.namespace == self.namespace,
            r.subsystem == self.subsystem,
            r.name@ == name@,
            r.help is None,
            r.labels@ == self.labels@,
            r.bucket_upper_bounds@ == seq![crate::float_bits::POS_INF_BITS],
    {
        let seeded = HistogramBuilder::new(name);
        HistogramBuilder {
            namespace: Self::opt_copy(&self.namespace),
            subsystem: Self::opt_copy(&self.subsystem),
            name: name.to_owned(),
            help: None,
            labels: self.labels_copy(),
            bucket_upper_bounds: seeded.bucket_upper_bounds,
        }
    }

    /// Makes a `SummaryBuilder` over the given window, in milliseconds, that
    /// inherits the settings of this builder.
    pub fn summary(&self, name: &str, window_millis: u64) -> (r: SummaryBuilder)
        ensures
            r.namespace == self.namespace,
            r.subsystem == self.subsystem,
            r.name@ == name@,
            r.help is None,
            r.labels@ == self.labels@,
            r.window_millis == window_millis,
            r.quantiles@.len() == 0,
    {
        SummaryBuilder {
            namespace: Self::opt_copy(&self.namespace),
            subsystem: Self::opt_copy(&self.subsystem),
            name: name.to_owned(),
            help: None,
            labels: self.labels_copy(),
            window_millis,
            quantiles: Vec::new(),
        }
    }
}

} // verus!
