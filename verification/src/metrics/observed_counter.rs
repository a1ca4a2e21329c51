//! `ObservedCounter` is a counter whose cumulative value comes from an
//! external source, so it is set rather than incremented.
use vstd::prelude::*;

use crate::atomic::AtomicU64;
use crate::metrics::counter::builder_names_ok;
use crate::error::{Error, ErrorKind};
use crate::float_bits::{is_nan, nan_bits, scaled, SIGN_MASK};
use crate::label::Labels;
use crate::metric::MetricName;
use crate::timestamp::Timestamp;

verus! {

/// A counter observed from an external source.
#[derive(Debug, Clone)]
pub struct ObservedCounter {
    /// The metric name.
    pub name: MetricName,
    /// The optional help text.
    pub help: Option<String>,
    /// The labels.
    pub labels: Labels,
    /// The optional timestamp.
    pub timestamp: Timestamp,
    /// The observed value, as an IEEE-754 bit pattern.
    pub value: AtomicU64,
}

impl ObservedCounter {
    /// Returns the name of this counter.
    pub fn metric_name(&self) -> (r: &MetricName)
        ensures
            r == self.name,
    {
        &self.name
    }

    /// Returns the help of this counter.
    pub fn help(&self) -> (r: Option<&str>)
        ensures
            match r {
                Option::Some(h) => self.help is Some && h@ == self.help->0@,
                Option::None => self.help is None,
            },
    {
        match &self.help {
            Some(h) => Some(h.as_str()),
            None => None,
        }
    }

    /// Returns the labels of this counter.
    pub fn labels(&self) -> (r: &Labels)
        ensures
            r == self.labels,
    {
        &self.labels
    }

    /// Returns the timestamp of this counter.
    pub fn timestamp(&self) -> (r: &Timestamp)
        ensures
            r == self.timestamp,
    {
        &self.timestamp
    }

    /// Returns the value of this counter, as an IEEE-754 bit pattern.
    pub fn value(&self) -> (r: u64)
        ensures
            r == self.value.value,
    {
        self.value.get()
    }

    /// Sets this counter to the value whose bit pattern is `count`.
    ///
    /// A NaN and a negative value are rejected with `InvalidInput` and leave
    /// the counter unchanged.
    pub fn set(&mut self, count: u64) -> (r: Result<(), Error>)
        ensures
            r is Ok <==> (!is_nan(count) && scaled(count) >= 0),
            r is Ok ==> final(self).value.value == count,
            r is Err ==> *final(self) == *old(self) && r->Err_0.kind == ErrorKind::InvalidInput,
            final(self).name == old(self).name && final(self).help == old(self).help,
            final(self).labels == old(self).labels,
            final(self).timestamp == old(self).timestamp,
    {
        if nan_bits(count) {
            return Err(Error::invalid_input());
        }
        if count & SIGN_MASK != 0 && count & 0x7FFF_FFFF_FFFF_FFFF != 0 {
            proof {
                crate::float_bits::lemma_negative_scaled(count);
            }
            return Err(Error::invalid_input());
        }
        proof {
            crate::float_bits::lemma_nonneg_scaled(count);
        }
        self.value.set(count);
        Ok(())
    }
}


/// `ObservedCounter` builder.
#[derive(Debug)]
pub struct ObservedCounterBuilder {
    /// The optional namespace part of the metric name.
    pub namespace: Option<String>,
    /// The optional subsystem part of the metric name.
    pub subsystem: Option<String>,
    /// The base name.
    pub name: String,
    /// The optional help text.
    pub help: Option<String>,
    /// The label pairs validated and inserted by `finish`; on a repeated
    /// name the last pair wins.
    pub labels: Vec<(String, String)>,
}

impl ObservedCounterBuilder {
    /// Makes a builder for observed counters named `name`.
    pub fn new(name: &str) -> (r: Self)
        ensures
            r.namespace is None,
            r.subsystem is None,
            r.name@ == name@,
            r.help is None,
            r.labels@.len() == 0,
    {
        ObservedCounterBuilder {
            namespace: None,
            subsystem: None,
            name: name.to_owned(),
            help: None,
            labels: Vec::new(),
        }
    }

    /// Builds an observed counter at zero, with no timestamp, rejecting a
    /// malformed metric name or label.
    pub fn finish(&self) -> (r: Result<ObservedCounter, Error>)
        ensures
            match r {
                Result::Ok(c) => {
                    &&& builder_names_ok(
                        self.namespace,
                        self.subsystem,
                        self.name,
                        self.labels@,
                        Option::None,
                    )
                    &&& crate::metric::opt_view(c.name.namespace) == crate::metric::opt_view(
                        self.namespace,
                    )
                    &&& crate::metric::opt_view(c.name.subsystem) == crate::metric::opt_view(
                        self.subsystem,
                    )
                    &&& c.name.name@ == self.name@
                    &&& c.help == self.help
                    &&& crate::label::labels_wf(c.labels.entries@)
                    &&& crate::label::labels_from_pairs(
                        crate::label::pairs_view(self.labels@),
                        c.labels.entries@,
                    )
                    &&& c.timestamp@ is None
                    &&& c.value.value == crate::float_bits::ZERO_BITS
                },
                Result::Err(e) => {
                    &&& e.kind == ErrorKind::InvalidInput
                    &&& !builder_names_ok(
                        self.namespace,
                        self.subsystem,
                        self.name,
                        self.labels@,
                        Option::None,
                    )
                },
            },
    {
        let name = MetricName::new(
            match &self.namespace {
                Some(s) => Some(s.as_str()),
                None => None,
            },
            match &self.subsystem {
                Some(s) => Some(s.as_str()),
                None => None,
            },
            self.name.as_str(),
        )?;
        let labels = crate::label::build_labels(&self.labels, None)?;
        let help = match &self.help {
            Some(h) => Some(h.clone()),
            None => None,
        };
        Ok(
            ObservedCounter {
                name,
                help,
                labels,
                timestamp: crate::timestamp::Timestamp::new(),
                value: AtomicU64::new(crate::float_bits::ZERO_BITS),
            },
        )
    }
}

impl ObservedCounterBuilder {
    /// Sets the namespace part of the metric name of this.
    pub fn namespace(self, namespace: &str) -> (r: Self)
        ensures
            r == (Self { namespace: r.namespace, ..self }),
            r.namespace is Some && r.namespace->0@ == namespace@,
    {
        Self { namespace: Some(namespace.to_owned()), ..self }
    }

    /// Sets the subsystem part of the metric name of this.
    pub fn subsystem(self, subsystem: &str) -> (r: Self)
        ensures
            r == (Self { subsystem: r.subsystem, ..self }),
            r.subsystem is Some && r.subsystem->0@ == subsystem@,
    {
        Self { subsystem: Some(subsystem.to_owned()), ..self }
    }

    /// Sets the help of this.
    pub fn help(self, help: &str) -> (r: Self)
        ensures
            r == (Self { help: r.help, ..self }),
            r.help is Some && r.help->0@ == help@,
    {
        Self { help: Some(help.to_owned()), ..self }
    }

    /// Adds a label; the name is validated by `finish`.
    pub fn label(self, name: &str, value: &str) -> (r: Self)
        ensures
            r == (Self { labels: r.labels, ..self }),
            r.labels@.len() == self.labels@.len() + 1,
            forall|i: int| 0 <= i < self.labels@.len() ==> r.labels@[i] == self.labels@[i],
            r.labels@.last().0@ == name@ && r.labels@.last().1@ == value@,
    {
        let mut labels = self.labels;
        labels.push((name.to_owned(), value.to_owned()));
        Self { labels, ..self }
    }
}


impl ObservedCounter {
    /// Inserts or replaces a label.
    pub fn labels_insert(&mut self, name: &str, value: &str) -> (r: Result<(), Error>)
        requires
            crate::label::labels_wf(old(self).labels.entries@),
        ensures
            crate::label::labels_wf(final(self).labels.entries@),
            match r {
                Result::Ok(_) => {
                    &&& crate::label::valid_label_name(name@)
                    &&& true
                    &&& crate::label::has_pair(final(self).labels.entries@, name@, value@)
                    &&& forall|n: Seq<char>, v: Seq<char>|
                        n != name@ ==> (crate::label::has_pair(final(self).labels.entries@, n, v)
                            <==> crate::label::has_pair(old(self).labels.entries@, n, v))
                    &&& forall|v: Seq<char>|
                        crate::label::has_pair(final(self).labels.entries@, name@, v) ==> v
                            == value@
                },
                Result::Err(e) => {
                    &&& e.kind == crate::error::ErrorKind::InvalidInput
                    &&& final(self).labels.entries@ == old(self).labels.entries@
                },
            },
            unchanged_but_labels(*old(self), *final(self)),
    {
        self.labels.insert(name, value, None)
    }

    /// Removes the label of the given name, if present.
    pub fn labels_remove(&mut self, name: &str)
        requires
            crate::label::labels_wf(old(self).labels.entries@),
        ensures
            crate::label::labels_wf(final(self).labels.entries@),
            !crate::label::has_name(final(self).labels.entries@, name@),
            forall|n: Seq<char>, v: Seq<char>|
                n != name@ ==> (crate::label::has_pair(final(self).labels.entries@, n, v) <==>
                crate::label::has_pair(old(self).labels.entries@, n, v)),
            unchanged_but_labels(*old(self), *final(self)),
    {
        self.labels.remove(name)
    }
}

/// Everything except the labels is untouched.
pub open spec fn unchanged_but_labels(a: ObservedCounter, b: ObservedCounter) -> bool {
    &&& a.name == b.name
    &&& a.help == b.help
    &&& a.timestamp == b.timestamp
    &&& a.value == b.value
}

} // verus!
