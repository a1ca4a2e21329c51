//! `Summary` samples observations and computes configurable quantiles over a
//! sliding time window, next to an all-time count and sum.
use vstd::prelude::*;


use crate::atomic::AtomicU64;
use crate::atomic::wrap_add_u64;
use crate::float_bits::{
    floor_rank, is_nan, key, le_bits, nan_bits, quantile_index, valid_quantile,
};
use crate::error::Error;
use crate::label::Labels;
use crate::order::lemma_insert_to_multiset;
use crate::metric::MetricName;
use crate::timestamp::Timestamp;

verus! {

/// Whether the patterns are sorted ascending in the total order.
pub open spec fn sorted_keys(s: Seq<u64>) -> bool {
    forall|i: int, j: int| 0 <= i < j < s.len() ==> key(#[trigger] s[i]) <= key(#[trigger] s[j])
}

/// Sorts bit patterns ascending in the total order on patterns, keeping the
/// multiset of values.
pub fn sort_bits(v: &Vec<u64>) -> (r: Vec<u64>)
    ensures
        sorted_keys(r@),
        r@.to_multiset() == v@.to_multiset(),
        r@.len() == v@.len(),
{
    let mut out: Vec<u64> = Vec::new();
    let mut i: usize = 0;
    proof {
        out@.to_multiset_ensures();
        v@.to_multiset_ensures();
        assert(v@.take(0) =~= Seq::<u64>::empty());
        assert(out@ =~= Seq::<u64>::empty());
    }
    while i < v.len()
        invariant
            i <= v@.len(),
            sorted_keys(out@),
            out@.to_multiset() == v@.take(i as int).to_multiset(),
            out@.len() == i as int,
        decreases v@.len() - i,
    {
        let x = v[i];
        let mut j: usize = 0;
        loop
            invariant
                j <= out@.len(),
                sorted_keys(out@),
                forall|k: int| 0 <= k < j ==> key(#[trigger] out@[k]) <= key(x),
            ensures
                j <= out@.len(),
                forall|k: int| 0 <= k < j ==> key(#[trigger] out@[k]) <= key(x),
                j < out@.len() ==> key(out@[j as int]) > key(x),
            decreases out@.len() - j,
        {
            if j >= out.len() {
                break ;
            }
            if !le_bits(out[j], x) {
                break ;
            }
            j = j + 1;
        }
        let ghost s1 = out@;
        out.insert(j, x);
        proof {
            lemma_insert_to_multiset(s1, j as int, x);
            s1.to_multiset_ensures();
            v@.take(i as int).to_multiset_ensures();
            assert(v@.take(i as int).push(x) =~= v@.take(i as int + 1));
            v@.take(i as int).to_multiset_ensures();
            assert(out@.to_multiset() =~= v@.take(i as int + 1).to_multiset());
            assert forall|a: int, b: int|
                0 <= a < b < out@.len() implies key(#[trigger] out@[a]) <= key(
                #[trigger] out@[b],
            ) by {
                if a < j && b > j {
                    assert(out@[a] == s1[a] && out@[b] == s1[b - 1]);
                } else if b == j as int {
                    assert(out@[a] == s1[a]);
                } else if a == j as int {
                    assert(out@[b] == s1[b - 1]);
                } else if b < j as int {
                    assert(out@[a] == s1[a] && out@[b] == s1[b]);
                } else {
                    assert(out@[a] == s1[a - 1] && out@[b] == s1[b - 1]);
                }
            }
        }
        i = i + 1;
    }
    proof {
        assert(v@.take(v@.len() as int) =~= v@);
    }
    out
}

/// A key-sorted sequence of finite patterns is sorted under the scaled
/// numeric model too: the quantile ranks read off genuinely ordered values.
pub proof fn lemma_sorted_keys_scaled(s: Seq<u64>, i: int, j: int)
    requires
        sorted_keys(s),
        0 <= i <= j < s.len(),
        crate::float_bits::is_finite(s[i]),
        crate::float_bits::is_finite(s[j]),
    ensures
        crate::float_bits::scaled(s[i]) <= crate::float_bits::scaled(s[j]),
{
    if i < j {
        crate::float_bits::lemma_key_orders_scaled(s[i], s[j]);
    }
}

/// Two key-sorted sequences of the same patterns are the same sequence.
pub proof fn lemma_sorted_keys_unique(a: Seq<u64>, b: Seq<u64>)
    requires
        sorted_keys(a),
        sorted_keys(b),
        a.to_multiset() == b.to_multiset(),
    ensures
        a == b,
    decreases a.len(),
{
    a.to_multiset_ensures();
    b.to_multiset_ensures();
    if a.len() == 0 {
        assert(b.len() == 0);
        assert(a =~= b);
    } else {
        assert(b.len() == a.len());
        let x = a.last();
        let y = b.last();
        assert(a.to_multiset().contains(x)) by {
            assert(a.contains(x));
        }
        assert(b.contains(x));
        assert(a.contains(y)) by {
            assert(b.to_multiset().contains(y)) by {
                assert(b.contains(y));
            }
        }
        let ia = choose|ia: int| 0 <= ia < a.len() && a[ia] == y;
        let ib = choose|ib: int| 0 <= ib < b.len() && b[ib] == x;
        assert(key(y) <= key(a.last())) by {
            if ia < a.len() - 1 {
            }
        }
        assert(key(x) <= key(b.last())) by {
            if ib < b.len() - 1 {
            }
        }
        crate::float_bits::lemma_key_injective(x, y);
        assert(x == y);
        assert(a.drop_last().to_multiset() =~= a.to_multiset().remove(x)) by {
            assert(a.drop_last().push(x) =~= a);
            a.drop_last().to_multiset_ensures();
            assert(a.drop_last().push(x).to_multiset() =~= a.drop_last().to_multiset().insert(x));
            assert(a.to_multiset() =~= a.drop_last().to_multiset().insert(x));
        }
        assert(b.drop_last().to_multiset() =~= b.to_multiset().remove(x)) by {
            assert(b.drop_last().push(x) =~= b);
            b.drop_last().to_multiset_ensures();
            assert(b.drop_last().push(x).to_multiset() =~= b.drop_last().to_multiset().insert(x));
            assert(b.to_multiset() =~= b.drop_last().to_multiset().insert(x));
        }
        lemma_sorted_keys_unique(a.drop_last(), b.drop_last());
        assert(a =~= a.drop_last().push(x));
        assert(b =~= b.drop_last().push(x));
    }
}

/// The key-sorted arrangement of the patterns of `s`.
pub open spec fn sort_spec(s: Seq<u64>) -> Seq<u64> {
    choose|t: Seq<u64>| t.to_multiset() == s.to_multiset() && sorted_keys(t)
}

/// The sorted arrangement exists and is what any sorted, same-multiset
/// sequence is.
pub proof fn lemma_sort_spec_is(s: Seq<u64>, t: Seq<u64>)
    requires
        t.to_multiset() == s.to_multiset(),
        sorted_keys(t),
    ensures
        sort_spec(s) == t,
{
    let u = choose|u: Seq<u64>| u.to_multiset() == s.to_multiset() && sorted_keys(u);
    assert(u.to_multiset() == s.to_multiset() && sorted_keys(u)) by {
        assert(t.to_multiset() == s.to_multiset() && sorted_keys(t));
    }
    lemma_sorted_keys_unique(u, t);
}

/// The run-collapsed form of a sorted sequence: each value once.
pub open spec fn dedup_sorted(s: Seq<u64>) -> Seq<u64>
    decreases s.len(),
{
    if s.len() == 0 {
        Seq::empty()
    } else {
        let rest = dedup_sorted(s.drop_last());
        if rest.len() > 0 && rest.last() == s.last() {
            rest
        } else {
            rest.push(s.last())
        }
    }
}

/// Whatever the collapsed sequence holds was in the input.
pub proof fn lemma_dedup_subset(s: Seq<u64>)
    ensures
        forall|x: u64| dedup_sorted(s).contains(x) ==> s.contains(x),
    decreases s.len(),
{
    if s.len() > 0 {
        lemma_dedup_subset(s.drop_last());
        assert forall|x: u64| dedup_sorted(s).contains(x) implies s.contains(x) by {
            let d = dedup_sorted(s);
            let rest = dedup_sorted(s.drop_last());
            let k = choose|k: int| 0 <= k < d.len() && d[k] == x;
            if !(rest.len() > 0 && rest.last() == s.last()) && k == d.len() - 1 {
                assert(s[s.len() - 1] == x);
            } else {
                assert(rest.contains(x));
                assert(s.drop_last().contains(x));
                let w = choose|w: int| 0 <= w < s.drop_last().len() && s.drop_last()[w] == x;
                assert(s[w] == x);
            }
        }
    }
}

/// Collapsing a sorted sequence keeps exactly its values, keeps its last
/// entry, and leaves the keys strictly increasing: no entry repeats.
pub proof fn lemma_dedup_sorted_strict(s: Seq<u64>)
    requires
        sorted_keys(s),
    ensures
        dedup_sorted(s).len() > 0 <==> s.len() > 0,
        dedup_sorted(s).len() > 0 ==> dedup_sorted(s).last() == s.last(),
        forall|i: int, j: int|
            0 <= i < j < dedup_sorted(s).len() ==> key(#[trigger] dedup_sorted(s)[i]) < key(
                #[trigger] dedup_sorted(s)[j],
            ),
        forall|x: u64| dedup_sorted(s).contains(x) <==> s.contains(x),
    decreases s.len(),
{
    if s.len() > 0 {
        let t = s.drop_last();
        assert(sorted_keys(t)) by {
            assert forall|i: int, j: int|
                0 <= i < j < t.len() implies key(#[trigger] t[i]) <= key(#[trigger] t[j]) by {
                assert(t[i] == s[i] && t[j] == s[j]);
            }
        }
        lemma_dedup_sorted_strict(t);
        let rest = dedup_sorted(t);
        let d = dedup_sorted(s);
        // Any value of s is a value of the front part or the last entry.
        assert forall|x: u64| s.contains(x) implies (t.contains(x) || s.last() == x) by {
            let w = choose|w: int| 0 <= w < s.len() && s[w] == x;
            if w < s.len() - 1 {
                assert(t[w] == x);
            }
        }
        assert forall|x: u64| t.contains(x) implies s.contains(x) by {
            let w = choose|w: int| 0 <= w < t.len() && t[w] == x;
            assert(s[w] == x);
        }
        if rest.len() > 0 && rest.last() == s.last() {
            assert(d == rest);
            assert forall|x: u64| d.contains(x) <==> s.contains(x) by {
                if s.contains(x) {
                    if s.last() == x {
                        assert(rest.contains(rest.last()));
                    }
                }
            }
        } else {
            assert(d == rest.push(s.last()));
            // The appended entry sorts strictly above everything kept.
            assert forall|i: int| 0 <= i < rest.len() implies key(#[trigger] rest[i]) < key(
                s.last(),
            ) by {
                assert(rest.last() == t.last());
                assert(key(t.last()) <= key(s.last())) by {
                    assert(t.last() == s[s.len() - 2] && s.last() == s[s.len() - 1]);
                }
                if key(rest.last()) == key(s.last()) {
                    crate::float_bits::lemma_key_injective(rest.last(), s.last());
                    assert(false);
                }
                if i < rest.len() - 1 {
                    assert(key(rest[i]) < key(rest.last()));
                }
            }
            assert forall|x: u64| d.contains(x) implies s.contains(x) by {
                let w = choose|w: int| 0 <= w < d.len() && d[w] == x;
                if w < rest.len() {
                    assert(rest[w] == x);
                    assert(rest.contains(x));
                } else {
                    assert(s.last() == x);
                    assert(s[s.len() - 1] == x);
                }
            }
            assert forall|x: u64| s.contains(x) implies d.contains(x) by {
                if s.last() == x {
                    assert(d[d.len() - 1] == x);
                } else {
                    assert(t.contains(x));
                    assert(rest.contains(x));
                    let w = choose|w: int| 0 <= w < rest.len() && rest[w] == x;
                    assert(d[w] == x);
                }
            }
        }
    }
}

/// Collapses the runs of a sorted sequence, keeping each value once.
pub fn dedup_bits(v: &Vec<u64>) -> (r: Vec<u64>)
    ensures
        r@ == dedup_sorted(v@),
{
    let mut out: Vec<u64> = Vec::new();
    let mut i: usize = 0;
    proof {
        assert(v@.take(0) =~= Seq::<u64>::empty());
        assert(out@ =~= dedup_sorted(v@.take(0)));
    }
    while i < v.len()
        invariant
            i <= v@.len(),
            out@ == dedup_sorted(v@.take(i as int)),
        decreases v@.len() - i,
    {
        proof {
            assert(v@.take(i as int + 1).drop_last() =~= v@.take(i as int));
            assert(v@.take(i as int + 1).last() == v@[i as int]);
        }
        let x = v[i];
        let n = out.len();
        if n == 0 || out[n - 1] != x {
            out.push(x);
        }
        i = i + 1;
    }
    proof {
        assert(v@.take(v@.len() as int) =~= v@);
    }
    out
}

/// The samples that remain after evicting, from the front, everything
/// strictly older than the window relative to `now`.
pub open spec fn evict(s: Seq<(i64, u64)>, now: int, w: int) -> Seq<(i64, u64)>
    decreases s.len(),
{
    if s.len() > 0 && (s[0].0 as int) < now - w {
        evict(s.drop_first(), now, w)
    } else {
        s
    }
}

/// Nothing older than the window survives eviction.
pub proof fn lemma_evict_in_window(s: Seq<(i64, u64)>, now: int, w: int)
    ensures
        evict(s, now, w).len() > 0 ==> (evict(s, now, w)[0].0 as int) >= now - w,
        evict(s, now, w).len() <= s.len(),
    decreases s.len(),
{
    if s.len() > 0 && (s[0].0 as int) < now - w {
        lemma_evict_in_window(s.drop_first(), now, w);
    }
}

/// Whether a sample is retained: not older than the window, and not a NaN.
pub open spec fn retained_pred(now: int, w: int) -> spec_fn((i64, u64)) -> bool {
    |p: (i64, u64)| (p.0 as int) >= now - w && !is_nan(p.1)
}

/// The retained, non-NaN sample values: those not older than the window.
pub open spec fn retained_values(s: Seq<(i64, u64)>, now: int, w: int) -> Seq<u64> {
    s.filter(retained_pred(now, w)).map_values(|p: (i64, u64)| p.1)
}

/// How the retained values grow with one more sample.
proof fn lemma_retained_snoc(s: Seq<(i64, u64)>, now: int, w: int, i: int)
    requires
        0 <= i < s.len(),
    ensures
        retained_values(s.take(i + 1), now, w) == if retained_pred(now, w)(s[i]) {
            retained_values(s.take(i), now, w).push(s[i].1)
        } else {
            retained_values(s.take(i), now, w)
        },
{
    reveal(Seq::filter);
    let pred = retained_pred(now, w);
    assert(s.take(i + 1).drop_last() =~= s.take(i));
    assert(s.take(i + 1).last() == s[i]);
    if pred(s[i]) {
        assert(s.take(i + 1).filter(pred) == s.take(i).filter(pred).push(s[i]));
        assert(retained_values(s.take(i + 1), now, w) =~= retained_values(s.take(i), now, w).push(
            s[i].1,
        ));
    } else {
        assert(s.take(i + 1).filter(pred) == s.take(i).filter(pred));
    }
}

/// A sliding-window quantile-estimating metric.
#[derive(Debug, Clone)]
pub struct Summary {
    /// The metric name.
    pub name: MetricName,
    /// The optional help text.
    pub help: Option<String>,
    /// The labels.
    pub labels: Labels,
    /// The optional timestamp.
    pub timestamp: Timestamp,
    /// The sliding window, in milliseconds.
    pub window_millis: u64,
    /// The requested quantiles, as bit patterns sorted ascending.
    pub quantiles: Vec<u64>,
    /// The retained samples: observation time in milliseconds, and the
    /// observed value's bit pattern.
    pub samples: Vec<(i64, u64)>,
    /// The all-time observation count; never windowed.
    pub count: AtomicU64,
    /// The bit patterns of every observed value, all-time; their
    /// floating-point sum is the summary's sum.  Never windowed.
    pub sum_terms: Vec<u64>,
}

/// The well-formedness of a summary: every requested quantile lies in the
/// closed interval from 0 to 1, and they are sorted ascending.
pub open spec fn summary_wf(s: Summary) -> bool {
    &&& forall|i: int| 0 <= i < s.quantiles@.len() ==> valid_quantile(#[trigger] s.quantiles@[i])
    &&& sorted_keys(s.quantiles@)
}

impl Summary {
    /// Returns the name of this summary.
    pub fn metric_name(&self) -> (r: &MetricName)
        ensures
            r == self.name,
    {
        &self.name
    }

    /// Returns the help of this summary.
    pub fn help(&self) -> (r: Option<&str>)
        ensures
            match r {
                Option::Some(h) => self.help is Some && h@ == self.help->0@,
                Option::None => self.help is None,
            },
    {
        match &self.help {
            Some(h) => Some(h.as_str()),
            None => None,
        }
    }

    /// Returns the labels of this summary.
    pub fn labels(&self) -> (r: &Labels)
        ensures
            r == self.labels,
    {
        &self.labels
    }

    /// Returns the timestamp of this summary.
    pub fn timestamp(&self) -> (r: &Timestamp)
        ensures
            r == self.timestamp,
    {
        &self.timestamp
    }

    /// Returns the all-time observation count.
    pub fn count(&self) -> (r: u64)
        ensures
            r == self.count.value,
    {
        self.count.get()
    }

    /// The observed values, all-time, whose floating-point sum is this
    /// summary's sum.
    pub fn sum_terms(&self) -> (r: &Vec<u64>)
        ensures
            r == self.sum_terms,
    {
        &self.sum_terms
    }

    /// Observes a value at time `now` (milliseconds): appends the sample,
    /// evicts retained samples older than the window, and counts the value
    /// in the all-time count and sum, which the window never touches.
    pub fn observe_at(&mut self, value: u64, now: i64)
        ensures
            final(self).samples@ == evict(
                old(self).samples@.push((now, value)),
                now as int,
                old(self).window_millis as int,
            ),
            final(self).count.value == wrap_add_u64(old(self).count.value, 1),
            old(self).count.value < u64::MAX ==> final(self).count.value == old(self).count.value
                + 1,
            final(self).sum_terms@ == old(self).sum_terms@.push(value),
            summary_unchanged_but_value(*old(self), *final(self)),
    {
        self.samples.push((now, value));
        let w = self.window_millis;
        let ghost target = evict(self.samples@, now as int, w as int);
        loop
            invariant
                evict(self.samples@, now as int, w as int) == target,
                self.window_millis == w,
                self.count == old(self).count,
                self.sum_terms@ == old(self).sum_terms@,
                summary_unchanged_but_value(*old(self), *self),
            ensures
                self.samples@ == target,
                self.window_millis == w,
                self.count == old(self).count,
                self.sum_terms@ == old(self).sum_terms@,
                summary_unchanged_but_value(*old(self), *self),
            decreases self.samples@.len(),
        {
            if self.samples.len() == 0 {
                break ;
            }
            let ts = self.samples[0].0;
            if (ts as i128) < (now as i128) - (w as i128) {
                let ghost before = self.samples@;
                self.samples.remove(0);
                proof {
                    assert(before.remove(0) =~= before.drop_first());
                }
            } else {
                break ;
            }
        }
        self.count.inc();
        self.sum_terms.push(value);
    }

    /// The retained, non-NaN sample values as of time `now`.
    pub fn retained(&self, now: i64) -> (r: Vec<u64>)
        ensures
            r@ == retained_values(self.samples@, now as int, self.window_millis as int),
    {
        let w = self.window_millis;
        let mut vals: Vec<u64> = Vec::new();
        let mut i: usize = 0;
        proof {
            assert(self.samples@.take(0) =~= Seq::<(i64, u64)>::empty());
        }
        while i < self.samples.len()
            invariant
                i <= self.samples@.len(),
                w == self.window_millis,
                vals@ == retained_values(self.samples@.take(i as int), now as int, w as int),
            decreases self.samples@.len() - i,
        {
            let (ts, v) = self.samples[i];
            proof {
                lemma_retained_snoc(self.samples@, now as int, w as int, i as int);
            }
            if (ts as i128) >= (now as i128) - (w as i128) && !nan_bits(v) {
                proof {
                    assert(retained_pred(now as int, w as int)(self.samples@[i as int]));
                }
                vals.push(v);
            } else {
                proof {
                    assert(!retained_pred(now as int, w as int)(self.samples@[i as int]));
                }
            }
            i = i + 1;
        }
        proof {
            assert(self.samples@.take(self.samples@.len() as int) =~= self.samples@);
        }
        vals
    }

    /// The quantile/value pairs of this summary as of time `now`: each
    /// requested quantile paired with the nearest-rank element of the
    /// retained, non-NaN sample values sorted ascending; empty when no
    /// sample is retained.
    pub fn quantiles_at(&self, now: i64) -> (r: Vec<(u64, u64)>)
        requires
            summary_wf(*self),
        ensures
            ({
                let retained = retained_values(
                    self.samples@,
                    now as int,
                    self.window_millis as int,
                );
                let sorted = sort_spec(retained);
                if retained.len() == 0 {
                    r@.len() == 0
                } else {
                    &&& r@.len() == self.quantiles@.len()
                    &&& forall|k: int|
                        0 <= k < r@.len() ==> (#[trigger] r@[k]).0 == self.quantiles@[k]
                            && r@[k].1 == sorted[nearest_rank(
                            self.quantiles@[k],
                            retained.len() as int,
                        )]
                }
            }),
    {
        let vals = self.retained(now);
        let mut out: Vec<(u64, u64)> = Vec::new();
        if vals.len() == 0 {
            return out;
        }
        let sorted = sort_bits(&vals);
        let n = sorted.len();
        let mut k: usize = 0;
        while k < self.quantiles.len()
            invariant
                k <= self.quantiles@.len(),
                n == sorted@.len(),
                n >= 1,
                summary_wf(*self),
                out@.len() == k as int,
                forall|m: int|
                    0 <= m < k ==> (#[trigger] out@[m]).0 == self.quantiles@[m] && out@[m].1
                        == sorted@[nearest_rank(self.quantiles@[m], n as int)],
            decreases self.quantiles@.len() - k,
        {
            let q = self.quantiles[k];
            let idx = quantile_index(q, n);
            out.push((q, sorted[idx]));
            k = k + 1;
        }
        proof {
            let retained = retained_values(self.samples@, now as int, self.window_millis as int);
            assert(sorted@.to_multiset() == retained.to_multiset());
            lemma_sort_spec_is(retained, sorted@);
            retained.to_multiset_ensures();
            sorted@.to_multiset_ensures();
            assert(sorted@.len() == retained.len());
        }
        out
    }
}

/// The nearest-rank index for quantile `q` over `n` sorted samples.
pub open spec fn nearest_rank(q: u64, n: int) -> int {
    if floor_rank(q, n) < n - 1 {
        floor_rank(q, n)
    } else {
        n - 1
    }
}

/// Everything but the samples, count and sum is untouched.
pub open spec fn summary_unchanged_but_value(a: Summary, b: Summary) -> bool {
    &&& a.name == b.name
    &&& a.help == b.help
    &&& a.labels == b.labels
    &&& a.timestamp == b.timestamp
    &&& a.window_millis == b.window_millis
    &&& a.quantiles == b.quantiles
}


/// `Summary` builder.
#[derive(Debug)]
pub struct SummaryBuilder {
    /// The optional namespace part of the metric name.
    pub namespace: Option<String>,
    /// The optional subsystem part of the metric name.
    pub subsystem: Option<String>,
    /// The base name.
    pub name: String,
    /// The optional help text.
    pub help: Option<String>,
    /// The label pairs validated and inserted by `finish`; on a repeated
    /// name the last pair wins.
    pub labels: Vec<(String, String)>,
    /// The sliding window, in milliseconds.
    pub window_millis: u64,
    /// The requested quantiles, as IEEE-754 bit patterns.
    pub quantiles: Vec<u64>,
}

impl SummaryBuilder {
    /// Makes a builder for summaries named `name` over the given sliding
    /// window in milliseconds.
    pub fn new(name: &str, window_millis: u64) -> (r: Self)
        ensures
            r.namespace is None,
            r.subsystem is None,
            r.name@ == name@,
            r.help is None,
            r.labels@.len() == 0,
            r.window_millis == window_millis,
            r.quantiles@.len() == 0,
    {
        SummaryBuilder {
            namespace: None,
            subsystem: None,
            name: name.to_owned(),
            help: None,
            labels: Vec::new(),
            window_millis,
            quantiles: Vec::new(),
        }
    }

    /// Adds a quantile, as a bit pattern; it is validated by `finish`.
    pub fn quantile(self, bits: u64) -> (r: Self)
        ensures
            r == (Self { quantiles: r.quantiles, ..self }),
            r.quantiles@ == self.quantiles@.push(bits),
    {
        let mut quantiles = self.quantiles;
        quantiles.push(bits);
        Self { quantiles, ..self }
    }

    /// Builds an empty summary with the quantiles sorted ascending and
    /// deduplicated (each requested value once), rejecting a malformed
    /// metric name, a label (the name `quantile` is reserved), and a
    /// quantile outside the closed interval from 0 to 1.
    pub fn finish(&self) -> (r: Result<Summary, Error>)
        ensures
            match r {
                Result::Ok(s) => {
                    &&& summary_builder_ok(*self)
                    &&& summary_wf(s)
                    &&& crate::metric::opt_view(s.name.namespace) == crate::metric::opt_view(
                        self.namespace,
                    )
                    &&& crate::metric::opt_view(s.name.subsystem) == crate::metric::opt_view(
                        self.subsystem,
                    )
                    &&& s.name.name@ == self.name@
                    &&& s.help == self.help
                    &&& crate::label::labels_wf(s.labels.entries@)
                    &&& crate::label::labels_from_pairs(
                        crate::label::pairs_view(self.labels@),
                        s.labels.entries@,
                    )
                    &&& s.timestamp@ is None
                    &&& s.window_millis == self.window_millis
                    &&& forall|i: int, j: int|
                        0 <= i < j < s.quantiles@.len() ==> crate::float_bits::key(
                            #[trigger] s.quantiles@[i],
                        ) < crate::float_bits::key(#[trigger] s.quantiles@[j])
                    &&& forall|b: u64|
                        #[trigger] s.quantiles@.contains(b) <==> self.quantiles@.contains(b)
                    &&& s.samples@.len() == 0
                    &&& s.count.value == 0
                    &&& s.sum_terms@.len() == 0
                },
                Result::Err(e) => {
                    &&& e.kind == crate::error::ErrorKind::InvalidInput
                    &&& !summary_builder_ok(*self)
                },
            },
    {
        let name = MetricName::new(
            match &self.namespace {
                Some(s) => Some(s.as_str()),
                None => None,
            },
            match &self.subsystem {
                Some(s) => Some(s.as_str()),
                None => None,
            },
            self.name.as_str(),
        )?;
        let labels = crate::label::build_labels(&self.labels, Some("quantile"))?;
        let mut i: usize = 0;
        while i < self.quantiles.len()
            invariant
                i <= self.quantiles@.len(),
                forall|k: int| 0 <= k < i ==> valid_quantile(#[trigger] self.quantiles@[k]),
            decreases self.quantiles@.len() - i,
        {
            if !crate::float_bits::check_quantile(self.quantiles[i]) {
                return Err(crate::error::Error::invalid_input());
            }
            i = i + 1;
        }
        let help = match &self.help {
            Some(h) => Some(h.clone()),
            None => None,
        };
        let sorted = sort_bits(&self.quantiles);
        let distinct = dedup_bits(&sorted);
        proof {
            self.quantiles@.to_multiset_ensures();
            sorted@.to_multiset_ensures();
            lemma_dedup_sorted_strict(sorted@);
            assert forall|b: u64|
                #[trigger] distinct@.contains(b) <==> self.quantiles@.contains(b) by {
                if distinct@.contains(b) {
                    assert(sorted@.contains(b));
                    assert(sorted@.to_multiset().count(b) > 0);
                    assert(self.quantiles@.to_multiset().count(b) > 0);
                    assert(self.quantiles@.contains(b));
                }
                if self.quantiles@.contains(b) {
                    assert(self.quantiles@.to_multiset().count(b) > 0);
                    assert(sorted@.to_multiset().count(b) > 0);
                    assert(sorted@.contains(b));
                    assert(distinct@.contains(b));
                }
            }
            assert forall|k: int| 0 <= k < distinct@.len() implies valid_quantile(
                #[trigger] distinct@[k],
            ) by {
                assert(distinct@.contains(distinct@[k]));
                assert(self.quantiles@.contains(distinct@[k]));
                let w = choose|w: int|
                    0 <= w < self.quantiles@.len() && self.quantiles@[w] == distinct@[k];
                assert(valid_quantile(self.quantiles@[w]));
            }
            assert(sorted_keys(distinct@));
        }
        Ok(
            Summary {
                name,
                help,
                labels,
                timestamp: crate::timestamp::Timestamp::new(),
                window_millis: self.window_millis,
                quantiles: distinct,
                samples: Vec::new(),
                count: AtomicU64::new(0),
                sum_terms: Vec::new(),
            },
        )
    }

    /// Sets the namespace part of the metric name of this.
    pub fn namespace(self, namespace: &str) -> (r: Self)
        ensures
            r == (Self { namespace: r.namespace, ..self }),
            r.namespace is Some && r.namespace->0@ == namespace@,
    {
        Self { namespace: Some(namespace.to_owned()), ..self }
    }

    /// Sets the subsystem part of the metric name of this.
    pub fn subsystem(self, subsystem: &str) -> (r: Self)
        ensures
            r == (Self { subsystem: r.subsystem, ..self }),
            r.subsystem is Some && r.subsystem->0@ == subsystem@,
    {
        Self { subsystem: Some(subsystem.to_owned()), ..self }
    }

    /// Sets the help of this.
    pub fn help(self, help: &str) -> (r: Self)
        ensures
            r == (Self { help: r.help, ..self }),
            r.help is Some && r.help->0@ == help@,
    {
        Self { help: Some(help.to_owned()), ..self }
    }

    /// Adds a label; the name is validated by `finish`.
    pub fn label(self, name: &str, value: &str) -> (r: Self)
        ensures
            r == (Self { labels: r.labels, ..self }),
            r.labels@.len() == self.labels@.len() + 1,
            forall|i: int| 0 <= i < self.labels@.len() ==> r.labels@[i] == self.labels@[i],
            r.labels@.last().0@ == name@ && r.labels@.last().1@ == value@,
    {
        let mut labels = self.labels;
        labels.push((name.to_owned(), value.to_owned()));
        Self { labels, ..self }
    }
}

/// Whether everything a summary builder holds is acceptable: valid names,
/// no reserved `quantile` label, and quantiles within the unit interval.
pub open spec fn summary_builder_ok(b: SummaryBuilder) -> bool {
    &&& crate::metrics::counter::builder_names_ok(
        b.namespace,
        b.subsystem,
        b.name,
        b.labels@,
        Option::Some("quantile"@),
    )
    &&& forall|i: int| 0 <= i < b.quantiles@.len() ==> valid_quantile(
        #[trigger] b.quantiles@[i],
    )
}


impl Summary {
    /// Inserts or replaces a label; the name `quantile` is rejected as reserved.
    pub fn labels_insert(&mut self, name: &str, value: &str) -> (r: Result<(), Error>)
        requires
            crate::label::labels_wf(old(self).labels.entries@),
        ensures
            crate::label::labels_wf(final(self).labels.entries@),
            match r {
                Result::Ok(_) => {
                    &&& crate::label::valid_label_name(name@)
                    &&& name@ != "quantile"@
                    &&& crate::label::has_pair(final(self).labels.entries@, name@, value@)
                    &&& forall|n: Seq<char>, v: Seq<char>|
                        n != name@ ==> (crate::label::has_pair(final(self).labels.entries@, n, v)
                            <==> crate::label::has_pair(old(self).labels.entries@, n, v))
                    &&& forall|v: Seq<char>|
                        crate::label::has_pair(final(self).labels.entries@, name@, v) ==> v
                            == value@
                },
                Result::Err(e) => {
                    &&& e.kind == crate::error::ErrorKind::InvalidInput
                    &&& final(self).labels.entries@ == old(self).labels.entries@
                },
            },
            unchanged_but_labels(*old(self), *final(self)),
    {
        self.labels.insert(name, value, Some("quantile"))
    }

    /// Removes the label of the given name, if present.
    pub fn labels_remove(&mut self, name: &str)
        requires
            crate::label::labels_wf(old(self).labels.entries@),
        ensures
            crate::label::labels_wf(final(self).labels.entries@),
            !crate::label::has_name(final(self).labels.entries@, name@),
            forall|n: Seq<char>, v: Seq<char>|
                n != name@ ==> (crate::label::has_pair(final(self).labels.entries@, n, v) <==>
                crate::label::has_pair(old(self).labels.entries@, n, v)),
            unchanged_but_labels(*old(self), *final(self)),
    {
        self.labels.remove(name)
    }
}

/// Everything except the labels is untouched.
pub open spec fn unchanged_but_labels(a: Summary, b: Summary) -> bool {
    &&& a.name == b.name
    &&& a.help == b.help
    &&& a.timestamp == b.timestamp
    &&& a.window_millis == b.window_millis
    &&& a.quantiles == b.quantiles
    &&& a.samples == b.samples
    &&& a.count == b.count
    &&& a.sum_terms == b.sum_terms
}

} // verus!
