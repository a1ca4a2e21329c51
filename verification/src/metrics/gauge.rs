//! `Gauge` is a metric that holds a single value that may go up and down.
//!
//! The value is an IEEE-754 bit pattern; the arithmetic conveniences of the
//! unverified layer reduce to `set`.
use vstd::prelude::*;

use crate::atomic::AtomicU64;
use crate::error::Error;
use crate::metrics::counter::builder_names_ok;
use crate::label::Labels;
use crate::metric::MetricName;
use crate::timestamp::Timestamp;

verus! {

/// A freely adjustable metric.
#[derive(Debug, Clone)]
pub struct Gauge {
    /// The metric name.
    pub name: MetricName,
    /// The optional help text.
    pub help: Option<String>,
    /// The labels.
    pub labels: Labels,
    /// The optional timestamp.
    pub timestamp: Timestamp,
    /// The held value, as an IEEE-754 bit pattern.
    pub value: AtomicU64,
}

impl Gauge {
    /// Returns the name of this gauge.
    pub fn metric_name(&self) -> (r: &MetricName)
        ensures
            r == self.name,
    {
        &self.name
    }

    /// Returns the help of this gauge.
    pub fn help(&self) -> (r: Option<&str>)
        ensures
            match r {
                Option::Some(h) => self.help is Some && h@ == self.help->0@,
                Option::None => self.help is None,
            },
    {
        match &self.help {
            Some(h) => Some(h.as_str()),
            None => None,
        }
    }

    /// Returns the labels of this gauge.
    pub fn labels(&self) -> (r: &Labels)
        ensures
            r == self.labels,
    {
        &self.labels
    }

    /// Returns the timestamp of this gauge.
    pub fn timestamp(&self) -> (r: &Timestamp)
        ensures
            r == self.timestamp,
    {
        &self.timestamp
    }

    /// Returns the value of this gauge, as an IEEE-754 bit pattern.
    pub fn value(&self) -> (r: u64)
        ensures
            r == self.value.value,
    {
        self.value.get()
    }

    /// Sets this gauge to the value whose bit pattern is `bits`.
    pub fn set(&mut self, bits: u64)
        ensures
            final(self).value.value == bits,
            gauge_unchanged_but_value(*old(self), *final(self)),
    {
        self.value.set(bits);
    }
}

/// Everything but the numeric state is untouched.
pub open spec fn gauge_unchanged_but_value(a: Gauge, b: Gauge) -> bool {
    &&& a.name == b.name
    &&& a.help == b.help
    &&& a.labels == b.labels
    &&& a.timestamp == b.timestamp
}


/// `Gauge` builder.
#[derive(Debug)]
pub struct GaugeBuilder {
    /// The optional namespace part of the metric name.
    pub namespace: Option<String>,
    /// The optional subsystem part of the metric name.
    pub subsystem: Option<String>,
    /// The base name.
    pub name: String,
    /// The optional help text.
    pub help: Option<String>,
    /// The label pairs validated and inserted by `finish`; on a repeated
    /// name the last pair wins.
    pub labels: Vec<(String, String)>,
    /// The initial value, as an IEEE-754 bit pattern.
    pub initial_value: u64,
}

impl GaugeBuilder {
    /// Makes a builder for gauges named `name`, starting at zero.
    pub fn new(name: &str) -> (r: Self)
        ensures
            r.namespace is None,
            r.subsystem is None,
            r.name@ == name@,
            r.help is None,
            r.labels@.len() == 0,
            r.initial_value == crate::float_bits::ZERO_BITS,
    {
        GaugeBuilder {
            namespace: None,
            subsystem: None,
            name: name.to_owned(),
            help: None,
            labels: Vec::new(),
            initial_value: crate::float_bits::ZERO_BITS,
        }
    }

    /// Sets the initial value of resulting gauges, as a bit pattern.
    pub fn initial_value(self, bits: u64) -> (r: Self)
        ensures
            r == (Self { initial_value: bits, ..self }),
    {
        Self { initial_value: bits, ..self }
    }

    /// Builds a gauge at the initial value, with no timestamp, rejecting a
    /// malformed metric name or label.
    pub fn finish(&self) -> (r: Result<Gauge, Error>)
        ensures
            match r {
                Result::Ok(g) => {
                    &&& builder_names_ok(
                        self.namespace,
                        self.subsystem,
                        self.name,
                        self.labels@,
                        Option::None,
                    )
                    &&& crate::metric::opt_view(g.name.namespace) == crate::metric::opt_view(
                        self.namespace,
                    )
                    &&& crate::metric::opt_view(g.name.subsystem) == crate::metric::opt_view(
                        self.subsystem,
                    )
                    &&& g.name.name@ == self.name@
                    &&& g.help == self.help
                    &&& crate::label::labels_wf(g.labels.entries@)
                    &&& crate::label::labels_from_pairs(
                        crate::label::pairs_view(self.labels@),
                        g.labels.entries@,
                    )
                    &&& g.timestamp@ is None
                    &&& g.value.value == self.initial_value
                },
                Result::Err(e) => {
                    &&& e.kind == crate::error::ErrorKind::InvalidInput
                    &&& !builder_names_ok(
                        self.namespace,
                        self.subsystem,
                        self.name,
                        self.labels@,
                        Option::None,
                    )
                },
            },
    {
        let name = MetricName::new(
            match &self.namespace {
                Some(s) => Some(s.as_str()),
                None => None,
            },
            match &self.subsystem {
                Some(s) => Some(s.as_str()),
                None => None,
            },
            self.name.as_str(),
        )?;
        let labels = crate::label::build_labels(&self.labels, None)?;
        let help = match &self.help {
            Some(h) => Some(h.clone()),
            None => None,
        };
        Ok(
            Gauge {
                name,
                help,
                labels,
                timestamp: crate::timestamp::Timestamp::new(),
                value: AtomicU64::new(self.initial_value),
            },
        )
    }
}

impl GaugeBuilder {
    /// Sets the namespace part of the metric name of this.
    pub fn namespace(self, namespace: &str) -> (r: Self)
        ensures
            r == (Self { namespace: r.namespace, ..self }),
            r.namespace is Some && r.namespace->0@ == namespace@,
    {
        Self { namespace: Some(namespace.to_owned()), ..self }
    }

    /// Sets the subsystem part of the metric name of this.
    pub fn subsystem(self, subsystem: &str) -> (r: Self)
        ensures
            r == (Self { subsystem: r.subsystem, ..self }),
            r.subsystem is Some && r.subsystem->0@ == subsystem@,
    {
        Self { subsystem: Some(subsystem.to_owned()), ..self }
    }

    /// Sets the help of this.
    pub fn help(self, help: &str) -> (r: Self)
        ensures
            r == (Self { help: r.help, ..self }),
            r.help is Some && r.help->0@ == help@,
    {
        Self { help: Some(help.to_owned()), ..self }
    }

    /// Adds a label; the name is validated by `finish`.
    pub fn label(self, name: &str, value: &str) -> (r: Self)
        ensures
            r == (Self { labels: r.labels, ..self }),
            r.labels@.len() == self.labels@.len() + 1,
            forall|i: int| 0 <= i < self.labels@.len() ==> r.labels@[i] == self.labels@[i],
            r.labels@.last().0@ == name@ && r.labels@.last().1@ == value@,
    {
        let mut labels = self.labels;
        labels.push((name.to_owned(), value.to_owned()));
        Self { labels, ..self }
    }
}


impl Gauge {
    /// Inserts or replaces a label.
    pub fn labels_insert(&mut self, name: &str, value: &str) -> (r: Result<(), Error>)
        requires
            crate::label::labels_wf(old(self).labels.entries@),
        ensures
            crate::label::labels_wf(final(self).labels.entries@),
            match r {
                Result::Ok(_) => {
                    &&& crate::label::valid_label_name(name@)
                    &&& true
                    &&& crate::label::has_pair(final(self).labels.entries@, name@, value@)
                    &&& forall|n: Seq<char>, v: Seq<char>|
                        n != name@ ==> (crate::label::has_pair(final(self).labels.entries@, n, v)
                            <==> crate::label::has_pair(old(self).labels.entries@, n, v))
                    &&& forall|v: Seq<char>|
                        crate::label::has_pair(final(self).labels.entries@, name@, v) ==> v
                            == value@
                },
                Result::Err(e) => {
                    &&& e.kind == crate::error::ErrorKind::InvalidInput
                    &&& final(self).labels.entries@ == old(self).labels.entries@
                },
            },
            unchanged_but_labels(*old(self), *final(self)),
    {
        self.labels.insert(name, value, None)
    }

    /// Removes the label of the given name, if present.
    pub fn labels_remove(&mut self, name: &str)
        requires
            crate::label::labels_wf(old(self).labels.entries@),
        ensures
            crate::label::labels_wf(final(self).labels.entries@),
            !crate::label::has_name(final(self).labels.entries@, name@),
            forall|n: Seq<char>, v: Seq<char>|
                n != name@ ==> (crate::label::has_pair(final(self).labels.entries@, n, v) <==>
                crate::label::has_pair(old(self).labels.entries@, n, v)),
            unchanged_but_labels(*old(self), *final(self)),
    {
        self.labels.remove(name)
    }
}

/// Everything except the labels is untouched.
pub open spec fn unchanged_but_labels(a: Gauge, b: Gauge) -> bool {
    &&& a.name == b.name
    &&& a.help == b.help
    &&& a.timestamp == b.timestamp
    &&& a.value == b.value
}

} // verus!
