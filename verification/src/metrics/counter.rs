//! `Counter` is a cumulative metric whose value only ever goes up.
//!
//! The value is kept as an exact integer accumulator for whole increments,
//! plus the recorded bit patterns of every fractional increment; the metric's
//! model value is the 2^1074-scaled sum of both, so monotonicity and the
//! integer fast path are exact statements.
use vstd::prelude::*;

use vstd::arithmetic::div_mod::lemma_fundamental_div_mod;
use vstd::arithmetic::power2::{lemma2_to64, lemma2_to64_rest, lemma_pow2_adds, pow2};

use crate::atomic::AtomicU64;
use crate::error::{Error, ErrorKind};
use crate::float_bits::{
    as_exact_u64, exact_u64_cond, exact_u64_of, is_nan, mantissa, nan_bits, scaled, ONE_BITS,
    FRAC_MASK, SIGN_MASK,
};
use crate::label::{labels_wf, Labels};
use crate::metric::MetricName;
use crate::render::Term;
use crate::timestamp::Timestamp;

verus! {

/// The 2^1074-scaled sum of the recorded fractional increments.
pub open spec fn sum_scaled(s: Seq<u64>) -> int
    decreases s.len(),
{
    if s.len() == 0 {
        0
    } else {
        sum_scaled(s.drop_last()) + scaled(s.last())
    }
}

/// Whether a bit pattern may be added to a counter: not a NaN, and not
/// negative.
pub open spec fn counter_accepts(bits: u64) -> bool {
    !is_nan(bits) && scaled(bits) >= 0
}

/// A monotone cumulative metric.
#[derive(Debug, Clone)]
pub struct Counter {
    /// The metric name.
    pub name: MetricName,
    /// The optional help text.
    pub help: Option<String>,
    /// The labels.
    pub labels: Labels,
    /// The optional timestamp.
    pub timestamp: Timestamp,
    /// The exact integer accumulator.
    pub whole: AtomicU64,
    /// The bit patterns of the accepted increments that could not take the
    /// integer fast path.
    pub fracs: Vec<u64>,
}

/// The model value of a counter: the denoted number multiplied by 2^1074.
pub open spec fn counter_scaled(c: Counter) -> int {
    c.whole.value * pow2(1074) + sum_scaled(c.fracs@)
}

/// Every recorded fractional increment was accepted.
pub open spec fn fracs_wf(s: Seq<u64>) -> bool {
    forall|i: int| 0 <= i < s.len() ==> counter_accepts(#[trigger] s[i])
}

/// Appending one pattern adds exactly its scaled value.
pub proof fn lemma_sum_scaled_push(s: Seq<u64>, b: u64)
    ensures
        sum_scaled(s.push(b)) == sum_scaled(s) + scaled(b),
{
    assert(s.push(b).drop_last() =~= s);
    assert(s.push(b).last() == b);
}

/// A run of `n` unit increments, recorded as the pattern of 1.0.
pub open spec fn unit_run(n: nat) -> Seq<u64> {
    Seq::new(n, |i: int| ONE_BITS)
}

/// The scaled value of 1.0 is exactly 2^1074.
proof fn lemma_scaled_one()
    ensures
        scaled(ONE_BITS) == pow2(1074) as int,
{
    assert((ONE_BITS >> 52) & 0x7FF == 1023) by (bit_vector);
    assert(ONE_BITS & FRAC_MASK == 0) by (bit_vector);
    assert(ONE_BITS & SIGN_MASK == 0) by (bit_vector);
    lemma2_to64();
    lemma2_to64_rest();
    assert(mantissa(ONE_BITS) == pow2(52));
    lemma_pow2_adds(52, 1022);
}

/// An accepted pattern that passes the exact test denotes `n`, and its
/// scaled value is exactly `n * 2^1074`.
proof fn lemma_exact_scaled(bits: u64, n: u64)
    requires
        exact_u64_cond(bits),
        n == exact_u64_of(bits),
    ensures
        scaled(bits) == n * pow2(1074),
{
    vstd::arithmetic::power2::lemma_pow2_pos(1074);
    lemma_fundamental_div_mod(scaled(bits), pow2(1074) as int);
}

impl Counter {
    /// Returns the name of this counter.
    pub fn metric_name(&self) -> (r: &MetricName)
        ensures
            r == self.name,
    {
        &self.name
    }

    /// Returns the help of this counter.
    pub fn help(&self) -> (r: Option<&str>)
        ensures
            match r {
                Option::Some(h) => self.help is Some && h@ == self.help->0@,
                Option::None => self.help is None,
            },
    {
        match &self.help {
            Some(h) => Some(h.as_str()),
            None => None,
        }
    }

    /// Returns the labels of this counter.
    pub fn labels(&self) -> (r: &Labels)
        ensures
            r == self.labels,
    {
        &self.labels
    }

    /// Returns the timestamp of this counter.
    pub fn timestamp(&self) -> (r: &Timestamp)
        ensures
            r == self.timestamp,
    {
        &self.timestamp
    }

    /// The value of this counter, as render terms: the integer accumulator
    /// first, then every recorded fractional increment.
    pub fn value_terms(&self) -> (r: Vec<Term>)
        ensures
            r@ == counter_terms(*self),
    {
        let mut out: Vec<Term> = Vec::new();
        out.push(Term::Whole(self.whole.get()));
        let mut i: usize = 0;
        while i < self.fracs.len()
            invariant
                i <= self.fracs@.len(),
                out@.len() == i + 1,
                out@[0] == Term::Whole(self.whole.value),
                forall|k: int| 0 <= k < i ==> out@[k + 1] == Term::Bits(#[trigger] self.fracs@[k]),
            decreases self.fracs@.len() - i,
        {
            out.push(Term::Bits(self.fracs[i]));
            i = i + 1;
        }
        proof {
            assert(out@ =~= counter_terms(*self));
        }
        out
    }

    /// Increments this counter by one, exactly.
    pub fn increment(&mut self)
        ensures
            counter_scaled(*final(self)) == counter_scaled(*old(self)) + pow2(1074),
            fracs_wf(old(self).fracs@) ==> fracs_wf(final(self).fracs@),
            old(self).whole.value < u64::MAX ==> final(self).whole.value == old(self).whole.value
                + 1 && final(self).fracs@ == old(self).fracs@,
            old(self).whole.value == u64::MAX ==> ({
                &&& final(self).whole.value == old(self).whole.value
                &&& final(self).fracs@ == old(self).fracs@.push(ONE_BITS)
            }),
            counter_unchanged_but_value(*old(self), *final(self)),
    {
        proof {
            lemma_scaled_one();
        }
        self.add_u64(1);
        proof {
            if old(self).whole.value == u64::MAX {
                assert(old(self).fracs@ + unit_run(1) =~= old(self).fracs@.push(ONE_BITS));
            }
        }
    }

    /// Adds `count` to this counter, exactly.
    pub fn add_u64(&mut self, count: u64)
        ensures
            counter_scaled(*final(self)) == counter_scaled(*old(self)) + count * pow2(1074),
            fracs_wf(old(self).fracs@) ==> fracs_wf(final(self).fracs@),
            old(self).whole.value + count <= u64::MAX ==> ({
                &&& final(self).whole.value == old(self).whole.value + count
                &&& final(self).fracs@ == old(self).fracs@
            }),
            old(self).whole.value + count > u64::MAX ==> ({
                &&& final(self).whole.value == old(self).whole.value
                &&& final(self).fracs@ == old(self).fracs@ + unit_run(count as nat)
            }),
            counter_unchanged_but_value(*old(self), *final(self)),
    {
        let cur = self.whole.get();
        if count <= u64::MAX - cur {
            self.whole.set(cur + count);
            proof {
                assert((cur + count) * pow2(1074) == cur * pow2(1074) + count * pow2(1074))
                    by (nonlinear_arith);
            }
        } else {
            // The integer accumulator is exhausted; record whole units of
            // 1.0 instead, still exactly.
            let mut left = count;
            while left > 0
                invariant
                    left <= count,
                    counter_scaled(*self) + left * pow2(1074) == counter_scaled(*old(self)) + count
                        * pow2(1074),
                    self.whole.value == old(self).whole.value,
                    self.fracs@ == old(self).fracs@ + unit_run((count - left) as nat),
                    fracs_wf(old(self).fracs@) ==> fracs_wf(self.fracs@),
                    counter_unchanged_but_value(*old(self), *self),
                decreases left,
            {
                proof {
                    lemma_scaled_one();
                    lemma_sum_scaled_push(self.fracs@, ONE_BITS);
                    assert(left * pow2(1074) == (left - 1) * pow2(1074) + pow2(1074))
                        by (nonlinear_arith);
                    assert(counter_accepts(ONE_BITS)) by {
                        assert((ONE_BITS >> 52) & 0x7FF == 1023) by (bit_vector);
                    }
                    assert((old(self).fracs@ + unit_run((count - left) as nat)).push(ONE_BITS)
                        =~= old(self).fracs@ + unit_run((count - left + 1) as nat));
                }
                self.fracs.push(ONE_BITS);
                left = left - 1;
            }
            proof {
                assert(old(self).fracs@ + unit_run(0) =~= old(self).fracs@);
            }
        }
    }

    /// Adds `count`, given as an IEEE-754 bit pattern, to this counter.
    ///
    /// A NaN and a negative value are rejected with `InvalidInput` and leave
    /// the counter unchanged.  An accepted whole value that fits grows the
    /// integer accumulator and touches nothing else; a whole value that
    /// would overflow it is recorded as that many units of 1.0; any other
    /// accepted value is recorded bit-exactly.  Either way the model value
    /// grows by exactly the scaled value of `count`.
    pub fn add(&mut self, count: u64) -> (r: Result<(), Error>)
        ensures
            r is Ok <==> counter_accepts(count),
            r is Ok ==> counter_scaled(*final(self)) == counter_scaled(*old(self)) + scaled(count),
            (r is Ok && exact_u64_cond(count) && old(self).whole.value + exact_u64_of(count)
                <= u64::MAX) ==> ({
                &&& final(self).whole.value == old(self).whole.value + exact_u64_of(count)
                &&& final(self).fracs@ == old(self).fracs@
            }),
            (r is Ok && exact_u64_cond(count) && old(self).whole.value + exact_u64_of(count)
                > u64::MAX) ==> ({
                &&& final(self).whole.value == old(self).whole.value
                &&& final(self).fracs@ == old(self).fracs@ + unit_run(exact_u64_of(count) as nat)
            }),
            (r is Ok && !exact_u64_cond(count)) ==> ({
                &&& final(self).whole.value == old(self).whole.value
                &&& final(self).fracs@ == old(self).fracs@.push(count)
            }),
            r is Err ==> *final(self) == *old(self) && r->Err_0.kind == ErrorKind::InvalidInput,
            fracs_wf(old(self).fracs@) ==> fracs_wf(final(self).fracs@),
            counter_unchanged_but_value(*old(self), *final(self)),
    {
        if nan_bits(count) {
            return Err(Error::invalid_input());
        }
        if count & SIGN_MASK != 0 && count & 0x7FFF_FFFF_FFFF_FFFF != 0 {
            proof {
                crate::float_bits::lemma_negative_scaled(count);
            }
            return Err(Error::invalid_input());
        }
        proof {
            crate::float_bits::lemma_nonneg_scaled(count);
        }
        match as_exact_u64(count) {
            Some(n) => {
                proof {
                    lemma_exact_scaled(count, n);
                }
                self.add_u64(n);
            },
            None => {
                proof {
                    lemma_sum_scaled_push(self.fracs@, count);
                }
                self.fracs.push(count);
            },
        }
        Ok(())
    }
}

/// The render terms of a counter's value.
pub open spec fn counter_terms(c: Counter) -> Seq<Term> {
    seq![Term::Whole(c.whole.value)] + c.fracs@.map_values(|b: u64| Term::Bits(b))
}

/// Everything but the numeric state is untouched.
pub open spec fn counter_unchanged_but_value(a: Counter, b: Counter) -> bool {
    &&& a.name == b.name
    &&& a.help == b.help
    &&& a.labels == b.labels
    &&& a.timestamp == b.timestamp
}

/// The value of a counter after a run of accepted increments, starting from
/// the model value `start`.
pub open spec fn value_after(start: int, deltas: Seq<u64>) -> int {
    start + sum_scaled(deltas)
}

/// Monotonicity: under any sequence of accepted (non-NaN, non-negative)
/// increments, the counter's model value never decreases from one prefix of
/// the run to a longer one; a rejected increment changes nothing (see
/// `Counter::add`).
pub proof fn lemma_counter_monotonic(start: int, deltas: Seq<u64>, i: int, j: int)
    requires
        fracs_wf(deltas),
        0 <= i <= j <= deltas.len(),
    ensures
        value_after(start, deltas.take(i)) <= value_after(start, deltas.take(j)),
    decreases j - i,
{
    if i < j {
        lemma_counter_monotonic(start, deltas, i, j - 1);
        assert(deltas.take(j).drop_last() =~= deltas.take(j - 1));
        assert(deltas.take(j).last() == deltas[j - 1]);
        assert(counter_accepts(deltas[j - 1]));
    }
}

/// Integer exactness: a counter that only ever took the integer fast path
/// (`increment`, `add_u64`, whole `add`s) holds exactly its count `N`: its
/// model value is `N * 2^1074`, with no drift.
pub proof fn lemma_counter_integer_exact(c: Counter)
    requires
        c.fracs@.len() == 0,
    ensures
        counter_scaled(c) == c.whole.value * pow2(1074),
{
}


/// `Counter` builder.
#[derive(Debug)]
pub struct CounterBuilder {
    /// The optional namespace part of the metric name.
    pub namespace: Option<String>,
    /// The optional subsystem part of the metric name.
    pub subsystem: Option<String>,
    /// The base name.
    pub name: String,
    /// The optional help text.
    pub help: Option<String>,
    /// The label pairs validated and inserted by `finish`; on a repeated
    /// name the last pair wins.
    pub labels: Vec<(String, String)>,
}

impl CounterBuilder {
    /// Makes a builder for counters named `name`.
    pub fn new(name: &str) -> (r: Self)
        ensures
            r.namespace is None,
            r.subsystem is None,
            r.name@ == name@,
            r.help is None,
            r.labels@.len() == 0,
    {
        CounterBuilder {
            namespace: None,
            subsystem: None,
            name: name.to_owned(),
            help: None,
            labels: Vec::new(),
        }
    }

    /// Sets the namespace part of the metric name of this.
    pub fn namespace(self, namespace: &str) -> (r: Self)
        ensures
            r == (Self { namespace: r.namespace, ..self }),
            r.namespace is Some && r.namespace->0@ == namespace@,
    {
        Self { namespace: Some(namespace.to_owned()), ..self }
    }

    /// Sets the subsystem part of the metric name of this.
    pub fn subsystem(self, subsystem: &str) -> (r: Self)
        ensures
            r == (Self { subsystem: r.subsystem, ..self }),
            r.subsystem is Some && r.subsystem->0@ == subsystem@,
    {
        Self { subsystem: Some(subsystem.to_owned()), ..self }
    }

    /// Sets the help of this.
    pub fn help(self, help: &str) -> (r: Self)
        ensures
            r == (Self { help: r.help, ..self }),
            r.help is Some && r.help->0@ == help@,
    {
        Self { help: Some(help.to_owned()), ..self }
    }

    /// Adds a label; the name is validated by `finish`.
    pub fn label(self, name: &str, value: &str) -> (r: Self)
        ensures
            r == (Self { labels: r.labels, ..self }),
            r.labels@.len() == self.labels@.len() + 1,
            forall|i: int| 0 <= i < self.labels@.len() ==> r.labels@[i] == self.labels@[i],
            r.labels@.last().0@ == name@ && r.labels@.last().1@ == value@,
    {
        let mut labels = self.labels;
        labels.push((name.to_owned(), value.to_owned()));
        Self { labels, ..self }
    }

    /// Builds a counter at zero, with no timestamp, rejecting a malformed
    /// metric name or label.
    pub fn finish(&self) -> (r: Result<Counter, Error>)
        ensures
            match r {
                Result::Ok(c) => {
                    &&& builder_names_ok(
                        self.namespace,
                        self.subsystem,
                        self.name,
                        self.labels@,
                        Option::None,
                    )
                    &&& crate::metric::opt_view(c.name.namespace) == crate::metric::opt_view(
                        self.namespace,
                    )
                    &&& crate::metric::opt_view(c.name.subsystem) == crate::metric::opt_view(
                        self.subsystem,
                    )
                    &&& c.name.name@ == self.name@
                    &&& c.help == self.help
                    &&& labels_wf(c.labels.entries@)
                    &&& crate::label::labels_from_pairs(
                        crate::label::pairs_view(self.labels@),
                        c.labels.entries@,
                    )
                    &&& c.timestamp@ is None
                    &&& c.whole.value == 0
                    &&& c.fracs@.len() == 0
                },
                Result::Err(e) => {
                    &&& e.kind == ErrorKind::InvalidInput
                    &&& !builder_names_ok(
                        self.namespace,
                        self.subsystem,
                        self.name,
                        self.labels@,
                        Option::None,
                    )
                },
            },
    {
        let name = MetricName::new(
            match &self.namespace {
                Some(s) => Some(s.as_str()),
                None => None,
            },
            match &self.subsystem {
                Some(s) => Some(s.as_str()),
                None => None,
            },
            self.name.as_str(),
        )?;
        let labels = crate::label::build_labels(&self.labels, None)?;
        let help = match &self.help {
            Some(h) => Some(h.clone()),
            None => None,
        };
        Ok(
            Counter {
                name,
                help,
                labels,
                timestamp: crate::timestamp::Timestamp::new(),
                whole: AtomicU64::new(0),
                fracs: Vec::new(),
            },
        )
    }
}

/// Whether every name a builder holds is acceptable: valid metric name
/// parts, and label names that are valid and not the reserved one.
pub open spec fn builder_names_ok(
    namespace: Option<String>,
    subsystem: Option<String>,
    name: String,
    labels: Seq<(String, String)>,
    reserved: Option<Seq<char>>,
) -> bool {
    &&& (namespace is Some ==> crate::metric::valid_metric_name(namespace->0@))
    &&& (subsystem is Some ==> crate::metric::valid_metric_name(subsystem->0@))
    &&& crate::metric::valid_metric_name(name@)
    &&& forall|i: int|
        0 <= i < labels.len() ==> crate::label::valid_label_name((#[trigger] labels[i]).0@) && (
        match reserved {
            Option::Some(res) => labels[i].0@ != res,
            Option::None => true,
        })
}


impl Counter {
    /// Inserts or replaces a label.
    pub fn labels_insert(&mut self, name: &str, value: &str) -> (r: Result<(), Error>)
        requires
            crate::label::labels_wf(old(self).labels.entries@),
        ensures
            crate::label::labels_wf(final(self).labels.entries@),
            match r {
                Result::Ok(_) => {
                    &&& crate::label::valid_label_name(name@)
                    &&& true
                    &&& crate::label::has_pair(final(self).labels.entries@, name@, value@)
                    &&& forall|n: Seq<char>, v: Seq<char>|
                        n != name@ ==> (crate::label::has_pair(final(self).labels.entries@, n, v)
                            <==> crate::label::has_pair(old(self).labels.entries@, n, v))
                    &&& forall|v: Seq<char>|
                        crate::label::has_pair(final(self).labels.entries@, name@, v) ==> v
                            == value@
                },
                Result::Err(e) => {
                    &&& e.kind == crate::error::ErrorKind::InvalidInput
                    &&& final(self).labels.entries@ == old(self).labels.entries@
                },
            },
            unchanged_but_labels(*old(self), *final(self)),
    {
        self.labels.insert(name, value, None)
    }

    /// Removes the label of the given name, if present.
    pub fn labels_remove(&mut self, name: &str)
        requires
            crate::label::labels_wf(old(self).labels.entries@),
        ensures
            crate::label::labels_wf(final(self).labels.entries@),
            !crate::label::has_name(final(self).labels.entries@, name@),
            forall|n: Seq<char>, v: Seq<char>|
                n != name@ ==> (crate::label::has_pair(final(self).labels.entries@, n, v) <==>
                crate::label::has_pair(old(self).labels.entries@, n, v)),
            unchanged_but_labels(*old(self), *final(self)),
    {
        self.labels.remove(name)
    }
}

/// Everything except the labels is untouched.
pub open spec fn unchanged_but_labels(a: Counter, b: Counter) -> bool {
    &&& a.name == b.name
    &&& a.help == b.help
    &&& a.timestamp == b.timestamp
    &&& a.whole == b.whole
    &&& a.fracs == b.fracs
}

} // verus!
