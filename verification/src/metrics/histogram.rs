//! `Histogram` counts observations in configurable buckets and keeps their
//! total count and the record of the observed values.
use vstd::prelude::*;

use crate::bucket::{
    cum_at, lemma_count_le_sum, lemma_sum_counts_update, sum_counts, Bucket, CumulativeBucket,
    CumulativeBuckets, lemma_sum_counts_take, lemma_sum_counts_prefix, lemma_sum_counts_nonneg,
};
use crate::atomic::AtomicU64;
use crate::float_bits::{is_nan, key, le_bits, POS_INF_BITS};
use crate::error::{Error, ErrorKind};
use crate::label::Labels;
use crate::metric::MetricName;
use crate::timestamp::Timestamp;

verus! {

/// The index of the bucket an observed value falls in: the first bucket
/// whose upper bound is at or above the value, in the total order on
/// patterns.
pub open spec fn bucket_index(s: Seq<Bucket>, v: u64) -> int
    decreases s.len(),
{
    if s.len() == 0 {
        0
    } else if key(v) <= key(s[0].upper_bound) {
        0
    } else {
        1 + bucket_index(s.drop_first(), v)
    }
}

/// The scan that stops at the first bound at or above the value lands on
/// `bucket_index`.
proof fn lemma_bucket_index_at(s: Seq<Bucket>, v: u64, i: int)
    requires
        0 <= i <= s.len(),
        forall|k: int| 0 <= k < i ==> key(v) > key((#[trigger] s[k]).upper_bound),
        i < s.len() ==> key(v) <= key(s[i].upper_bound),
    ensures
        bucket_index(s, v) == if i < s.len() {
            i
        } else {
            s.len() as int
        },
    decreases i,
{
    if i > 0 {
        lemma_bucket_index_at(s.drop_first(), v, i - 1);
    }
}

/// No pattern but a NaN sorts above positive infinity.
proof fn lemma_key_le_inf(v: u64)
    requires
        !is_nan(v),
    ensures
        key(v) <= key(POS_INF_BITS),
{
    assert((0x7FF0_0000_0000_0000u64 & 0x8000_0000_0000_0000u64 == 0) && (0x7FF0_0000_0000_0000u64
        | 0x8000_0000_0000_0000u64 == 0xFFF0_0000_0000_0000u64)) by (bit_vector);
    assert((((v >> 52) & 0x7FF != 0x7FF) || (v & 0x000F_FFFF_FFFF_FFFF == 0)) ==> ((if v
        & 0x8000_0000_0000_0000 != 0 {
        !v
    } else {
        v | 0x8000_0000_0000_0000
    }) <= 0xFFF0_0000_0000_0000)) by (bit_vector);
}

/// A bucketed distribution metric.
#[derive(Debug, Clone)]
pub struct Histogram {
    /// The metric name.
    pub name: MetricName,
    /// The optional help text.
    pub help: Option<String>,
    /// The labels.
    pub labels: Labels,
    /// The optional timestamp.
    pub timestamp: Timestamp,
    /// The buckets, sorted ascending by upper bound, ending in +infinity.
    pub buckets: Vec<Bucket>,
    /// The total count of observations.
    pub count: AtomicU64,
    /// The bit patterns of every observed value; their floating-point sum is
    /// the histogram's sum.
    pub sum_terms: Vec<u64>,
}

/// The well-formedness of a histogram: at least one bucket, bounds free of
/// NaN and sorted ascending, a final +infinity bound so that every
/// observation is counted somewhere, and a total count that equals the sum
/// of the bucket counts.
pub open spec fn hist_wf(h: Histogram) -> bool {
    &&& h.buckets@.len() >= 1
    &&& h.buckets@.last().upper_bound == POS_INF_BITS
    &&& forall|i: int|
        0 <= i < h.buckets@.len() ==> !is_nan((#[trigger] h.buckets@[i]).upper_bound)
    &&& forall|i: int, j: int|
        0 <= i < j < h.buckets@.len() ==> key(h.buckets@[i].upper_bound) <= key(
            h.buckets@[j].upper_bound,
        )
    &&& sum_counts(h.buckets@) == h.count.value
}

impl Histogram {
    /// Returns the name of this histogram.
    pub fn metric_name(&self) -> (r: &MetricName)
        ensures
            r == self.name,
    {
        &self.name
    }

    /// Returns the help of this histogram.
    pub fn help(&self) -> (r: Option<&str>)
        ensures
            match r {
                Option::Some(h) => self.help is Some && h@ == self.help->0@,
                Option::None => self.help is None,
            },
    {
        match &self.help {
            Some(h) => Some(h.as_str()),
            None => None,
        }
    }

    /// Returns the labels of this histogram.
    pub fn labels(&self) -> (r: &Labels)
        ensures
            r == self.labels,
    {
        &self.labels
    }

    /// Returns the timestamp of this histogram.
    pub fn timestamp(&self) -> (r: &Timestamp)
        ensures
            r == self.timestamp,
    {
        &self.timestamp
    }

    /// Returns the buckets of this histogram.
    pub fn buckets(&self) -> (r: &Vec<Bucket>)
        ensures
            r == self.buckets,
    {
        &self.buckets
    }

    /// Returns the total observation count.
    pub fn count(&self) -> (r: u64)
        ensures
            r == self.count.value,
    {
        self.count.get()
    }

    /// The observed values, whose floating-point sum is this histogram's
    /// sum.
    pub fn sum_terms(&self) -> (r: &Vec<u64>)
        ensures
            r == self.sum_terms,
    {
        &self.sum_terms
    }

    /// Observes a value: counts it in the first bucket whose bound is at or
    /// above it, in the total count, and in the record of observed values.
    pub fn observe(&mut self, value: u64)
        requires
            hist_wf(*old(self)),
            !is_nan(value),
            old(self).count.value < u64::MAX,
        ensures
            hist_wf(*final(self)),
            final(self).count.value == old(self).count.value + 1,
            final(self).sum_terms@ == old(self).sum_terms@.push(value),
            ({
                let j = bucket_index(old(self).buckets@, value);
                &&& 0 <= j < old(self).buckets@.len()
                &&& final(self).buckets@ == old(self).buckets@.update(
                    j,
                    Bucket {
                        count: AtomicU64 {
                            value: (old(self).buckets@[j].count.value + 1) as u64,
                        },
                        upper_bound: old(self).buckets@[j].upper_bound,
                    },
                )
            }),
            hist_unchanged_but_value(*old(self), *final(self)),
    {
        let ghost bs = self.buckets@;
        let mut i: usize = 0;
        loop
            invariant
                i < bs.len(),
                !is_nan(value),
                self.buckets@ == bs,
                hist_wf(*self),
                *self == *old(self),
                forall|k: int| 0 <= k < i ==> key(value) > key((#[trigger] bs[k]).upper_bound),
            ensures
                i < bs.len(),
                self.buckets@ == bs,
                *self == *old(self),
                key(value) <= key(bs[i as int].upper_bound),
                forall|k: int| 0 <= k < i ==> key(value) > key((#[trigger] bs[k]).upper_bound),
            decreases bs.len() - i,
        {
            if i == self.buckets.len() - 1 {
                proof {
                    lemma_key_le_inf(value);
                    assert(bs.last() == bs[bs.len() - 1]);
                }
                break ;
            }
            if le_bits(value, self.buckets[i].upper_bound()) {
                break ;
            }
            i = i + 1;
        }
        proof {
            lemma_bucket_index_at(bs, value, i as int);
            lemma_count_le_sum(bs, i as int);
        }
        let c = self.buckets[i].count();
        let ub = self.buckets[i].upper_bound();
        let nb = Bucket { count: AtomicU64::new(c + 1), upper_bound: ub };
        self.buckets.remove(i);
        self.buckets.insert(i, nb);
        let cnt = self.count.get();
        self.count.set(cnt + 1);
        self.sum_terms.push(value);
        proof {
            assert(self.buckets@ =~= bs.update(i as int, nb));
            lemma_sum_counts_update(bs, i as int, nb);
            assert forall|a: int, b: int|
                0 <= a < b < self.buckets@.len() implies key(self.buckets@[a].upper_bound) <= key(
                self.buckets@[b].upper_bound,
            ) by {
                assert(self.buckets@[a].upper_bound == bs[a].upper_bound);
                assert(self.buckets@[b].upper_bound == bs[b].upper_bound);
            }
            assert(self.buckets@.last().upper_bound == bs.last().upper_bound);
        }
    }

    /// Returns a cursor over the cumulative buckets of this histogram.
    pub fn cumulative_buckets(&self) -> (r: CumulativeBuckets)
        requires
            hist_wf(*self),
        ensures
            r.wf(),
            r.buckets@ == self.buckets@,
            r.pos == 0,
    {
        let mut items: Vec<Bucket> = Vec::new();
        let mut i: usize = 0;
        while i < self.buckets.len()
            invariant
                i <= self.buckets@.len(),
                items@.len() == i as int,
                forall|k: int| 0 <= k < i ==> items@[k] == self.buckets@[k],
            decreases self.buckets@.len() - i,
        {
            items.push(self.buckets[i]);
            i = i + 1;
        }
        proof {
            assert(items@ =~= self.buckets@);
            assert(items@.take(0) =~= Seq::<Bucket>::empty());
        }
        CumulativeBuckets { buckets: items, pos: 0, acc: 0 }
    }

    /// The cumulative view of the buckets: each bound with the count of
    /// every observation at or below it.
    pub fn cumulative_counts(&self) -> (r: Vec<CumulativeBucket>)
        requires
            hist_wf(*self),
        ensures
            r@.len() == self.buckets@.len(),
            forall|i: int|
                0 <= i < r@.len() ==> (#[trigger] r@[i]).upper_bound
                    == self.buckets@[i].upper_bound && r@[i].cumulative_count == cum_at(
                    self.buckets@,
                    i,
                ),
    {
        let mut out: Vec<CumulativeBucket> = Vec::new();
        let mut acc: u64 = 0;
        let mut i: usize = 0;
        proof {
            assert(self.buckets@.take(0) =~= Seq::<Bucket>::empty());
        }
        while i < self.buckets.len()
            invariant
                i <= self.buckets@.len(),
                out@.len() == i as int,
                hist_wf(*self),
                acc == sum_counts(self.buckets@.take(i as int)),
                forall|k: int|
                    0 <= k < i ==> (#[trigger] out@[k]).upper_bound
                        == self.buckets@[k].upper_bound && out@[k].cumulative_count == cum_at(
                        self.buckets@,
                        k,
                    ),
            decreases self.buckets@.len() - i,
        {
            proof {
                lemma_sum_counts_take(self.buckets@, i as int);
                lemma_sum_counts_prefix(self.buckets@, i as int + 1);
                lemma_sum_counts_nonneg(self.buckets@.take(i as int));
            }
            acc = acc + self.buckets[i].count();
            out.push(CumulativeBucket {
                cumulative_count: acc,
                upper_bound: self.buckets[i].upper_bound(),
            });
            i = i + 1;
        }
        out
    }
}

/// Everything but the numeric state is untouched.
pub open spec fn hist_unchanged_but_value(a: Histogram, b: Histogram) -> bool {
    &&& a.name == b.name
    &&& a.help == b.help
    &&& a.labels == b.labels
    &&& a.timestamp == b.timestamp
}

/// The cumulative counts of a well-formed histogram never decrease across
/// ascending buckets, and the final, +infinity bucket accumulates exactly
/// the total observation count.
pub proof fn lemma_cumulative_total(h: Histogram, i: int, j: int)
    requires
        hist_wf(h),
        0 <= i <= j < h.buckets@.len(),
    ensures
        cum_at(h.buckets@, i) <= cum_at(h.buckets@, j),
        cum_at(h.buckets@, h.buckets@.len() - 1) == h.count.value,
{
    crate::bucket::lemma_cum_monotone(h.buckets@, i, j);
    assert(h.buckets@.take(h.buckets@.len() as int) =~= h.buckets@);
}


/// `Histogram` builder.
#[derive(Debug)]
pub struct HistogramBuilder {
    /// The optional namespace part of the metric name.
    pub namespace: Option<String>,
    /// The optional subsystem part of the metric name.
    pub subsystem: Option<String>,
    /// The base name.
    pub name: String,
    /// The optional help text.
    pub help: Option<String>,
    /// The label pairs validated and inserted by `finish`; on a repeated
    /// name the last pair wins.
    pub labels: Vec<(String, String)>,
    /// The bucket upper bounds, as IEEE-754 bit patterns; always holds the
    /// +infinity bound the builder starts with.
    pub bucket_upper_bounds: Vec<u64>,
}

impl HistogramBuilder {
    /// Makes a builder for histograms named `name`, with the implicit
    /// +infinity bucket.
    pub fn new(name: &str) -> (r: Self)
        ensures
            r.namespace is None,
            r.subsystem is None,
            r.name@ == name@,
            r.help is None,
            r.labels@.len() == 0,
            r.bucket_upper_bounds@ == seq![POS_INF_BITS],
    {
        let mut bounds: Vec<u64> = Vec::new();
        bounds.push(POS_INF_BITS);
        proof {
            assert(bounds@ =~= seq![POS_INF_BITS]);
        }
        HistogramBuilder {
            namespace: None,
            subsystem: None,
            name: name.to_owned(),
            help: None,
            labels: Vec::new(),
            bucket_upper_bounds: bounds,
        }
    }

    /// Adds a bucket with the given upper bound bit pattern.
    pub fn bucket(self, upper_bound: u64) -> (r: Self)
        ensures
            r == (Self { bucket_upper_bounds: r.bucket_upper_bounds, ..self }),
            r.bucket_upper_bounds@ == self.bucket_upper_bounds@.push(upper_bound),
    {
        let mut bounds = self.bucket_upper_bounds;
        bounds.push(upper_bound);
        Self { bucket_upper_bounds: bounds, ..self }
    }

    /// Builds an empty histogram with the buckets sorted ascending by upper
    /// bound, rejecting a malformed metric name, a label (the name `le` is
    /// reserved), and a NaN bound.  The +infinity bucket the builder starts
    /// with is restored if it was taken away, so every observation has a
    /// bucket to land in.
    pub fn finish(&self) -> (r: Result<Histogram, Error>)
        ensures
            match r {
                Result::Ok(h) => {
                    &&& hist_builder_ok(*self)
                    &&& hist_wf(h)
                    &&& crate::metric::opt_view(h.name.namespace) == crate::metric::opt_view(
                        self.namespace,
                    )
                    &&& crate::metric::opt_view(h.name.subsystem) == crate::metric::opt_view(
                        self.subsystem,
                    )
                    &&& h.name.name@ == self.name@
                    &&& h.help == self.help
                    &&& crate::label::labels_wf(h.labels.entries@)
                    &&& crate::label::labels_from_pairs(
                        crate::label::pairs_view(self.labels@),
                        h.labels.entries@,
                    )
                    &&& h.timestamp@ is None
                    &&& h.count.value == 0
                    &&& h.sum_terms@.len() == 0
                    &&& self.bucket_upper_bounds@.contains(POS_INF_BITS)
                        ==> h.buckets@.map_values(|b: Bucket| b.upper_bound).to_multiset()
                        == self.bucket_upper_bounds@.to_multiset()
                },
                Result::Err(e) => {
                    &&& e.kind == ErrorKind::InvalidInput
                    &&& !hist_builder_ok(*self)
                },
            },
    {
        let name = MetricName::new(
            match &self.namespace {
                Some(s) => Some(s.as_str()),
                None => None,
            },
            match &self.subsystem {
                Some(s) => Some(s.as_str()),
                None => None,
            },
            self.name.as_str(),
        )?;
        let labels = crate::label::build_labels(&self.labels, Some("le"))?;
        let mut i: usize = 0;
        while i < self.bucket_upper_bounds.len()
            invariant
                i <= self.bucket_upper_bounds@.len(),
                forall|k: int|
                    0 <= k < i ==> !is_nan(#[trigger] self.bucket_upper_bounds@[k]),
            decreases self.bucket_upper_bounds@.len() - i,
        {
            if crate::float_bits::nan_bits(self.bucket_upper_bounds[i]) {
                return Err(crate::error::Error::invalid_input());
            }
            i = i + 1;
        }
        let help = match &self.help {
            Some(h) => Some(h.clone()),
            None => None,
        };
        // Restore the +infinity bound if manual construction removed it.
        let mut bounds: Vec<u64> = Vec::new();
        let mut has_inf = false;
        let mut bi: usize = 0;
        while bi < self.bucket_upper_bounds.len()
            invariant
                bi <= self.bucket_upper_bounds@.len(),
                bounds@ =~= self.bucket_upper_bounds@.take(bi as int),
                has_inf == self.bucket_upper_bounds@.take(bi as int).contains(POS_INF_BITS),
            decreases self.bucket_upper_bounds@.len() - bi,
        {
            let b = self.bucket_upper_bounds[bi];
            bounds.push(b);
            if b == POS_INF_BITS {
                has_inf = true;
            }
            proof {
                assert(bounds@ =~= self.bucket_upper_bounds@.take(bi as int + 1));
                let t = self.bucket_upper_bounds@.take(bi as int + 1);
                if b == POS_INF_BITS {
                    assert(t[bi as int] == POS_INF_BITS);
                    assert(t.contains(POS_INF_BITS));
                } else if self.bucket_upper_bounds@.take(bi as int).contains(POS_INF_BITS) {
                    let w = choose|w: int|
                        0 <= w < bi && self.bucket_upper_bounds@.take(bi as int)[w]
                            == POS_INF_BITS;
                    assert(t[w] == POS_INF_BITS);
                    assert(t.contains(POS_INF_BITS));
                } else {
                    if t.contains(POS_INF_BITS) {
                        let w = choose|w: int| 0 <= w < t.len() && t[w] == POS_INF_BITS;
                        if w < bi {
                            assert(self.bucket_upper_bounds@.take(bi as int)[w] == POS_INF_BITS);
                        }
                        assert(false);
                    }
                }
            }
            bi = bi + 1;
        }
        proof {
            assert(self.bucket_upper_bounds@.take(self.bucket_upper_bounds@.len() as int)
                =~= self.bucket_upper_bounds@);
        }
        if !has_inf {
            bounds.push(POS_INF_BITS);
            proof {
                assert(bounds@.last() == POS_INF_BITS);
                assert(bounds@.contains(POS_INF_BITS));
                assert(!is_nan(POS_INF_BITS)) by {
                    assert(0x7FF0_0000_0000_0000u64 & 0x000F_FFFF_FFFF_FFFF == 0) by (bit_vector);
                }
            }
        }
        let sorted = crate::metrics::summary::sort_bits(&bounds);
        let mut buckets: Vec<Bucket> = Vec::new();
        let mut j: usize = 0;
        while j < sorted.len()
            invariant
                j <= sorted@.len(),
                buckets@.len() == j as int,
                forall|k: int|
                    0 <= k < j ==> (#[trigger] buckets@[k]).upper_bound == sorted@[k]
                        && buckets@[k].count.value == 0,
            decreases sorted@.len() - j,
        {
            buckets.push(Bucket { count: AtomicU64::new(0), upper_bound: sorted[j] });
            j = j + 1;
        }
        proof {
            let bs = buckets@;
            let ub = bounds@;
            if self.bucket_upper_bounds@.contains(POS_INF_BITS) {
                assert(bounds@ =~= self.bucket_upper_bounds@);
            }
            assert forall|k: int| 0 <= k < ub.len() implies !is_nan(#[trigger] ub[k]) by {
                if k < self.bucket_upper_bounds@.len() {
                    assert(ub[k] == self.bucket_upper_bounds@[k]);
                }
            }
            crate::bucket::lemma_sum_counts_zero(bs);
            ub.to_multiset_ensures();
            sorted@.to_multiset_ensures();
            assert(bs.map_values(|b: Bucket| b.upper_bound) =~= sorted@);
            // Every bound came from the builder, so none is a NaN and the
            // +infinity bound is present and, being the largest, last.
            assert forall|k: int| 0 <= k < bs.len() implies !is_nan(
                (#[trigger] bs[k]).upper_bound,
            ) by {
                assert(sorted@[k] == bs[k].upper_bound);
                assert(sorted@.contains(sorted@[k]));
                assert(sorted@.to_multiset().count(sorted@[k]) > 0);
                assert(ub.to_multiset().count(sorted@[k]) > 0);
                assert(ub.contains(sorted@[k]));
            }
            assert(ub.to_multiset().count(POS_INF_BITS) > 0);
            assert(sorted@.to_multiset().count(POS_INF_BITS) > 0);
            assert(sorted@.contains(POS_INF_BITS));
            let w = choose|w: int| 0 <= w < sorted@.len() && sorted@[w] == POS_INF_BITS;
            let last = sorted@.len() - 1;
            assert(key(sorted@[w]) <= key(sorted@[last]));
            assert(!is_nan(sorted@[last])) by {
                assert(sorted@.contains(sorted@[last]));
                assert(sorted@.to_multiset().count(sorted@[last]) > 0);
                assert(ub.to_multiset().count(sorted@[last]) > 0);
                assert(ub.contains(sorted@[last]));
            }
            lemma_key_le_inf(sorted@[last]);
            crate::float_bits::lemma_key_injective(POS_INF_BITS, sorted@[last]);
            assert(bs.last().upper_bound == POS_INF_BITS);
        }
        Ok(
            Histogram {
                name,
                help,
                labels,
                timestamp: crate::timestamp::Timestamp::new(),
                buckets,
                count: AtomicU64::new(0),
                sum_terms: Vec::new(),
            },
        )
    }
}

/// Whether everything a histogram builder holds is acceptable: valid names,
/// no reserved `le` label, and no NaN bound.
pub open spec fn hist_builder_ok(b: HistogramBuilder) -> bool {
    &&& crate::metrics::counter::builder_names_ok(
        b.namespace,
        b.subsystem,
        b.name,
        b.labels@,
        Option::Some("le"@),
    )
    &&& forall|i: int| 0 <= i < b.bucket_upper_bounds@.len() ==> !is_nan(
        #[trigger] b.bucket_upper_bounds@[i],
    )
}

impl HistogramBuilder {
    /// Sets the namespace part of the metric name of this.
    pub fn namespace(self, namespace: &str) -> (r: Self)
        ensures
            r == (Self { namespace: r.namespace, ..self }),
            r.namespace is Some && r.namespace->0@ == namespace@,
    {
        Self { namespace: Some(namespace.to_owned()), ..self }
    }

    /// Sets the subsystem part of the metric name of this.
    pub fn subsystem(self, subsystem: &str) -> (r: Self)
        ensures
            r == (Self { subsystem: r.subsystem, ..self }),
            r.subsystem is Some && r.subsystem->0@ == subsystem@,
    {
        Self { subsystem: Some(subsystem.to_owned()), ..self }
    }

    /// Sets the help of this.
    pub fn help(self, help: &str) -> (r: Self)
        ensures
            r == (Self { help: r.help, ..self }),
            r.help is Some && r.help->0@ == help@,
    {
        Self { help: Some(help.to_owned()), ..self }
    }

    /// Adds a label; the name is validated by `finish`.
    pub fn label(self, name: &str, value: &str) -> (r: Self)
        ensures
            r == (Self { labels: r.labels, ..self }),
            r.labels@.len() == self.labels@.len() + 1,
            forall|i: int| 0 <= i < self.labels@.len() ==> r.labels@[i] == self.labels@[i],
            r.labels@.last().0@ == name@ && r.labels@.last().1@ == value@,
    {
        let mut labels = self.labels;
        labels.push((name.to_owned(), value.to_owned()));
        Self { labels, ..self }
    }
}


impl Histogram {
    /// Inserts or replaces a label; the name `le` is rejected as reserved.
    pub fn labels_insert(&mut self, name: &str, value: &str) -> (r: Result<(), Error>)
        requires
            crate::label::labels_wf(old(self).labels.entries@),
        ensures
            crate::label::labels_wf(final(self).labels.entries@),
            match r {
                Result::Ok(_) => {
                    &&& crate::label::valid_label_name(name@)
                    &&& name@ != "le"@
                    &&& crate::label::has_pair(final(self).labels.entries@, name@, value@)
                    &&& forall|n: Seq<char>, v: Seq<char>|
                        n != name@ ==> (crate::label::has_pair(final(self).labels.entries@, n, v)
                            <==> crate::label::has_pair(old(self).labels.entries@, n, v))
                    &&& forall|v: Seq<char>|
                        crate::label::has_pair(final(self).labels.entries@, name@, v) ==> v
                            == value@
                },
                Result::Err(e) => {
                    &&& e.kind == crate::error::ErrorKind::InvalidInput
                    &&& final(self).labels.entries@ == old(self).labels.entries@
                },
            },
            unchanged_but_labels(*old(self), *final(self)),
    {
        self.labels.insert(name, value, Some("le"))
    }

    /// Removes the label of the given name, if present.
    pub fn labels_remove(&mut self, name: &str)
        requires
            crate::label::labels_wf(old(self).labels.entries@),
        ensures
            crate::label::labels_wf(final(self).labels.entries@),
            !crate::label::has_name(final(self).labels.entries@, name@),
            forall|n: Seq<char>, v: Seq<char>|
                n != name@ ==> (crate::label::has_pair(final(self).labels.entries@, n, v) <==>
                crate::label::has_pair(old(self).labels.entries@, n, v)),
            unchanged_but_labels(*old(self), *final(self)),
    {
        self.labels.remove(name)
    }
}

/// Everything except the labels is untouched.
pub open spec fn unchanged_but_labels(a: Histogram, b: Histogram) -> bool {
    &&& a.name == b.name
    &&& a.help == b.help
    &&& a.timestamp == b.timestamp
    &&& a.buckets == b.buckets
    &&& a.count == b.count
    &&& a.sum_terms == b.sum_terms
}


/// The chosen bucket is the least one in the total order: every earlier
/// bound sorts strictly below the value, and the chosen bound (when one
/// exists) sorts at or above it.
pub proof fn lemma_bucket_index_least(s: Seq<Bucket>, v: u64)
    ensures
        0 <= bucket_index(s, v) <= s.len(),
        forall|k: int|
            0 <= k < bucket_index(s, v) ==> key(v) > key((#[trigger] s[k]).upper_bound),
        bucket_index(s, v) < s.len() ==> key(v) <= key(
            s[bucket_index(s, v)].upper_bound,
        ),
    decreases s.len(),
{
    if s.len() > 0 && !(key(v) <= key(s[0].upper_bound)) {
        lemma_bucket_index_least(s.drop_first(), v);
        assert forall|k: int|
            0 <= k < bucket_index(s, v) implies key(v) > key(
            (#[trigger] s[k]).upper_bound,
        ) by {
            if k > 0 {
                assert(s[k] == s.drop_first()[k - 1]);
            }
        }
        if bucket_index(s, v) < s.len() {
            assert(s[bucket_index(s, v)] == s.drop_first()[bucket_index(s.drop_first(), v)]);
        }
    }
}

/// Under the scaled numeric model, an observation lands in a bucket whose
/// bound denotes at least the observed value, while every earlier, finite
/// bound denotes at most the observed value: the first fitting bucket.
pub proof fn lemma_bucket_choice_model(s: Seq<Bucket>, v: u64)
    requires
        crate::float_bits::is_finite(v),
    ensures
        ({
            let j = bucket_index(s, v);
            &&& (j < s.len() && crate::float_bits::is_finite(s[j].upper_bound))
                ==> crate::float_bits::scaled(v) <= crate::float_bits::scaled(s[j].upper_bound)
            &&& forall|k: int|
                0 <= k < j && crate::float_bits::is_finite((#[trigger] s[k]).upper_bound)
                    ==> crate::float_bits::scaled(s[k].upper_bound) <= crate::float_bits::scaled(v)
        }),
{
    lemma_bucket_index_least(s, v);
    let j = bucket_index(s, v);
    if j < s.len() && crate::float_bits::is_finite(s[j].upper_bound) {
        crate::float_bits::lemma_key_orders_scaled(v, s[j].upper_bound);
    }
    assert forall|k: int|
        0 <= k < j && crate::float_bits::is_finite(
            (#[trigger] s[k]).upper_bound,
        ) implies crate::float_bits::scaled(s[k].upper_bound) <= crate::float_bits::scaled(v) by {
        crate::float_bits::lemma_key_orders_scaled(s[k].upper_bound, v);
    }
}

} // verus!
