//! Aggregation of metrics that share a name and a label set, as when the
//! same instrument reports from several places.
//!
//! Counter and gauge aggregates add their values; histogram aggregates merge
//! their buckets by upper bound.  Two bounds belong to the same merged
//! bucket exactly when their bit patterns are equal: the tolerance for
//! matching bounds is zero.
use vstd::prelude::*;

use crate::float_bits::key;
use crate::label::{labels_view, labels_view_eq, Labels};
use crate::metric::{metric_name_eq, name_key, MetricName};
use crate::order::lemma_insert_to_multiset;
use crate::metrics::summary::{
    dedup_sorted, lemma_dedup_subset, lemma_sort_spec_is, nearest_rank, retained_values,
    sort_bits, sort_spec, summary_wf, Summary, dedup_bits,
};

verus! {

/// Whether the bound/count pairs are sorted ascending by bound.
pub open spec fn pairs_sorted(ps: Seq<(u64, u64)>) -> bool {
    forall|i: int, j: int|
        0 <= i < j < ps.len() ==> key((#[trigger] ps[i]).0) <= key((#[trigger] ps[j]).0)
}

/// The total count over the pairs.
pub open spec fn sum_pair_counts(ps: Seq<(u64, u64)>) -> int
    decreases ps.len(),
{
    if ps.len() == 0 {
        0
    } else {
        sum_pair_counts(ps.drop_last()) + ps.last().1
    }
}

/// The merged cumulative buckets of sorted pairs: one entry per distinct
/// bound, carrying the count of every pair at or before it.
pub open spec fn merged_runs(ps: Seq<(u64, u64)>) -> Seq<(u64, int)>
    decreases ps.len(),
{
    if ps.len() == 0 {
        Seq::empty()
    } else {
        let rest = merged_runs(ps.drop_last());
        if rest.len() > 0 && rest.last().0 == ps.last().0 {
            rest.update(rest.len() - 1, (ps.last().0, rest.last().1 + ps.last().1))
        } else if rest.len() > 0 {
            rest.push((ps.last().0, rest.last().1 + ps.last().1))
        } else {
            rest.push((ps.last().0, ps.last().1 as int))
        }
    }
}

/// The merged cumulative counts run up to the total, and never below zero.
proof fn lemma_merged_runs_total(ps: Seq<(u64, u64)>)
    ensures
        merged_runs(ps).len() > 0 ==> merged_runs(ps).last().1 == sum_pair_counts(ps),
        merged_runs(ps).len() == 0 ==> ps.len() == 0,
        sum_pair_counts(ps) >= 0,
    decreases ps.len(),
{
    if ps.len() > 0 {
        lemma_merged_runs_total(ps.drop_last());
    }
}

/// The counts sum to no more than one full count per pair.
proof fn lemma_sum_pair_counts_bound(ps: Seq<(u64, u64)>)
    ensures
        sum_pair_counts(ps) <= ps.len() * 0xFFFF_FFFF_FFFF_FFFF,
    decreases ps.len(),
{
    if ps.len() > 0 {
        lemma_sum_pair_counts_bound(ps.drop_last());
        assert((ps.len() - 1) * 0xFFFF_FFFF_FFFF_FFFF + 0xFFFF_FFFF_FFFF_FFFF == ps.len()
            * 0xFFFF_FFFF_FFFF_FFFF) by (nonlinear_arith);
    }
}

/// Sorts bound/count pairs ascending by bound, keeping the multiset.
pub fn sort_pairs(v: Vec<(u64, u64)>) -> (r: Vec<(u64, u64)>)
    ensures
        pairs_sorted(r@),
        r@.to_multiset() == v@.to_multiset(),
{
    let ghost ms = v@;
    let mut rest = v;
    let mut out: Vec<(u64, u64)> = Vec::new();
    proof {
        out@.to_multiset_ensures();
        ms.to_multiset_ensures();
        assert(out@ =~= Seq::<(u64, u64)>::empty());
        assert(out@.to_multiset().add(rest@.to_multiset()) =~= ms.to_multiset());
    }
    while rest.len() > 0
        invariant
            pairs_sorted(out@),
            out@.to_multiset().add(rest@.to_multiset()) == ms.to_multiset(),
        decreases rest@.len(),
    {
        let ghost restpre = rest@;
        let p = rest.remove(0);
        proof {
            restpre.to_multiset_ensures();
            assert(restpre.remove(0) =~= rest@);
        }
        let mut j: usize = 0;
        loop
            invariant
                j <= out@.len(),
                forall|k: int| 0 <= k < j ==> key((#[trigger] out@[k]).0) <= key(p.0),
            ensures
                j <= out@.len(),
                forall|k: int| 0 <= k < j ==> key((#[trigger] out@[k]).0) <= key(p.0),
                j < out@.len() ==> key(out@[j as int].0) > key(p.0),
            decreases out@.len() - j,
        {
            if j >= out.len() {
                break ;
            }
            if !crate::float_bits::le_bits(out[j].0, p.0) {
                break ;
            }
            j = j + 1;
        }
        let ghost s1 = out@;
        out.insert(j, p);
        proof {
            lemma_insert_to_multiset(s1, j as int, p);
            assert(restpre.to_multiset().contains(restpre[0]));
            assert(out@.to_multiset().add(rest@.to_multiset()) =~= ms.to_multiset());
            assert forall|a: int, b: int|
                0 <= a < b < out@.len() implies key((#[trigger] out@[a]).0) <= key(
                (#[trigger] out@[b]).0,
            ) by {
                if b == j as int {
                    assert(out@[a] == s1[a]);
                } else if a == j as int {
                    assert(out@[b] == s1[b - 1]);
                } else if a < j as int && b > j as int {
                    assert(out@[a] == s1[a] && out@[b] == s1[b - 1]);
                } else if b < j as int {
                    assert(out@[a] == s1[a] && out@[b] == s1[b]);
                } else {
                    assert(out@[a] == s1[a - 1] && out@[b] == s1[b - 1]);
                }
            }
        }
    }
    proof {
        rest@.to_multiset_ensures();
        assert(rest@ =~= Seq::<(u64, u64)>::empty());
        assert(out@.to_multiset() =~= ms.to_multiset());
    }
    out
}

/// Folds sorted pairs into their merged cumulative buckets.
pub fn merge_cumulative(pairs: &Vec<(u64, u64)>) -> (r: Vec<(u64, u128)>)
    requires
        pairs_sorted(pairs@),
    ensures
        ({
            let merged = merged_runs(pairs@);
            r@.len() == merged.len() && forall|k: int|
                0 <= k < merged.len() ==> (#[trigger] r@[k]).0 == merged[k].0 && r@[k].1
                    == merged[k].1
        }),
{
    let ghost ps = pairs@;
    let mut out: Vec<(u64, u128)> = Vec::new();
    let mut i: usize = 0;
    proof {
        assert(ps.take(0) =~= Seq::<(u64, u64)>::empty());
    }
    while i < pairs.len()
        invariant
            i <= ps.len(),
            ps == pairs@,
            pairs_sorted(ps),
            ({
                let merged = merged_runs(ps.take(i as int));
                out@.len() == merged.len() && forall|k: int|
                    0 <= k < merged.len() ==> (#[trigger] out@[k]).0 == merged[k].0 && out@[k].1
                        == merged[k].1
            }),
        decreases ps.len() - i,
    {
        let (b, c) = pairs[i];
        proof {
            assert(ps.take(i as int + 1).drop_last() =~= ps.take(i as int));
            assert(ps.take(i as int + 1).last() == ps[i as int]);
            lemma_merged_runs_total(ps.take(i as int));
            lemma_sum_pair_counts_bound(ps.take(i as int));
            assert(ps.take(i as int).len() * 0xFFFF_FFFF_FFFF_FFFF < 0x1_0000_0000_0000_0000_0000_0000_0000_0000)
                by (nonlinear_arith)
                requires
                    0 <= ps.take(i as int).len() < 0x1_0000_0000_0000_0000,
            ;
        }
        let n = out.len();
        if n > 0 && out[n - 1].0 == b {
            let prev = out[n - 1];
            let ghost outpre = out@;
            out.remove(n - 1);
            out.push((b, prev.1 + c as u128));
            proof {
                let merged = merged_runs(ps.take(i as int + 1));
                assert(out@ =~= outpre.update(outpre.len() - 1, (b, (prev.1 + c) as u128)));
                assert(out@.len() == merged.len());
                assert forall|k: int|
                    0 <= k < merged.len() implies (#[trigger] out@[k]).0 == merged[k].0
                    && out@[k].1 == merged[k].1 by {
                    if k < merged.len() - 1 {
                        assert(out@[k] == outpre[k]);
                    }
                }
            }
        } else {
            let base: u128 = if n > 0 {
                out[n - 1].1
            } else {
                0
            };
            out.push((b, base + c as u128));
        }
        i = i + 1;
    }
    proof {
        assert(ps.take(ps.len() as int) =~= ps);
    }
    out
}


/// The bound/count pairs of one histogram's buckets.
pub open spec fn hist_pairs(h: crate::metrics::histogram::Histogram) -> Seq<(u64, u64)> {
    h.buckets@.map_values(|b: crate::bucket::Bucket| (b.upper_bound, b.count.value))
}

/// The bound/count pairs of every histogram in the aggregation, in order.
pub open spec fn all_pairs(hs: Seq<crate::metrics::histogram::Histogram>) -> Seq<(u64, u64)>
    decreases hs.len(),
{
    if hs.len() == 0 {
        Seq::empty()
    } else {
        all_pairs(hs.drop_last()) + hist_pairs(hs.last())
    }
}

/// The total observation count over the aggregation.
pub open spec fn sum_hist_counts(hs: Seq<crate::metrics::histogram::Histogram>) -> int
    decreases hs.len(),
{
    if hs.len() == 0 {
        0
    } else {
        sum_hist_counts(hs.drop_last()) + hs.last().count.value
    }
}

/// The later of two optional timestamps; an absent one loses.
pub open spec fn opt_ts_max(a: Option<i64>, b: Option<i64>) -> Option<i64> {
    match (a, b) {
        (Option::None, x) => x,
        (x, Option::None) => x,
        (Option::Some(x), Option::Some(y)) => if x >= y {
            Option::Some(x)
        } else {
            Option::Some(y)
        },
    }
}

/// The latest timestamp in the aggregation.
pub open spec fn ts_max(hs: Seq<crate::metrics::histogram::Histogram>) -> Option<i64>
    decreases hs.len(),
{
    if hs.len() == 0 {
        Option::None
    } else {
        opt_ts_max(ts_max(hs.drop_last()), hs.last().timestamp@)
    }
}

/// Takes the later of two optional timestamps.
fn opt_ts_max_exec(a: Option<i64>, b: Option<i64>) -> (r: Option<i64>)
    ensures
        r == opt_ts_max(a, b),
{
    match (a, b) {
        (None, x) => x,
        (x, None) => x,
        (Some(x), Some(y)) => if x >= y {
            Some(x)
        } else {
            Some(y)
        },
    }
}

/// A metric aggregating histograms that share a name and a label set.
#[derive(Debug, Clone)]
pub struct AggregatedHistogram {
    /// The aggregated histograms; never empty.
    pub inners: Vec<crate::metrics::histogram::Histogram>,
}

impl AggregatedHistogram {
    /// Wraps one histogram.
    pub fn new(histogram: crate::metrics::histogram::Histogram) -> (r: Self)
        ensures
            r.inners@ == seq![histogram],
    {
        let mut inners: Vec<crate::metrics::histogram::Histogram> = Vec::new();
        inners.push(histogram);
        proof {
            assert(inners@ =~= seq![histogram]);
        }
        AggregatedHistogram { inners }
    }

    /// Returns the name of this metric.
    pub fn metric_name(&self) -> (r: &MetricName)
        requires
            self.inners@.len() >= 1,
        ensures
            *r == self.inners@[0].name,
    {
        &self.inners[0].name
    }

    /// Returns the labels of this metric.
    pub fn labels(&self) -> (r: &Labels)
        requires
            self.inners@.len() >= 1,
        ensures
            *r == self.inners@[0].labels,
    {
        &self.inners[0].labels
    }

    /// Returns the latest timestamp among the aggregated histograms.
    pub fn timestamp(&self) -> (r: Option<i64>)
        ensures
            r == ts_max(self.inners@),
    {
        let mut acc: Option<i64> = None;
        let mut i: usize = 0;
        proof {
            assert(self.inners@.take(0) =~= Seq::<crate::metrics::histogram::Histogram>::empty());
        }
        while i < self.inners.len()
            invariant
                i <= self.inners@.len(),
                acc == ts_max(self.inners@.take(i as int)),
            decreases self.inners@.len() - i,
        {
            proof {
                assert(self.inners@.take(i as int + 1).drop_last() =~= self.inners@.take(
                    i as int,
                ));
                assert(self.inners@.take(i as int + 1).last() == self.inners@[i as int]);
            }
            acc = opt_ts_max_exec(acc, self.inners[i].timestamp.get());
            i = i + 1;
        }
        proof {
            assert(self.inners@.take(self.inners@.len() as int) =~= self.inners@);
        }
        acc
    }

    /// Returns the total observation count over the aggregation.
    pub fn count(&self) -> (r: u128)
        ensures
            r == sum_hist_counts(self.inners@),
    {
        let mut acc: u128 = 0;
        let mut i: usize = 0;
        let total = self.inners.len();
        proof {
            assert(self.inners@.take(0) =~= Seq::<crate::metrics::histogram::Histogram>::empty());
            lemma_sum_hist_counts_bound(self.inners@);
            assert(self.inners@.len() == total as int);
            assert(self.inners@.len() < 0x1_0000_0000_0000_0000);
            assert(self.inners@.len() * 0xFFFF_FFFF_FFFF_FFFF
                < 0x1_0000_0000_0000_0000_0000_0000_0000_0000) by (nonlinear_arith)
                requires
                    0 <= self.inners@.len() < 0x1_0000_0000_0000_0000,
            ;
        }
        while i < self.inners.len()
            invariant
                i <= self.inners@.len(),
                acc == sum_hist_counts(self.inners@.take(i as int)),
                sum_hist_counts(self.inners@) < 0x1_0000_0000_0000_0000_0000_0000_0000_0000,
            decreases self.inners@.len() - i,
        {
            proof {
                assert(self.inners@.take(i as int + 1).drop_last() =~= self.inners@.take(
                    i as int,
                ));
                assert(self.inners@.take(i as int + 1).last() == self.inners@[i as int]);
                lemma_sum_hist_counts_mono(self.inners@, i as int + 1);
                lemma_sum_hist_counts_nonneg(self.inners@.take(i as int));
            }
            acc = acc + self.inners[i].count() as u128;
            i = i + 1;
        }
        proof {
            assert(self.inners@.take(self.inners@.len() as int) =~= self.inners@);
        }
        acc
    }

    /// The observed values over the whole aggregation, whose floating-point
    /// sum is the aggregation's sum.
    pub fn sum_terms(&self) -> (r: Vec<u64>)
        ensures
            r@ == all_sum_terms(self.inners@),
    {
        let mut out: Vec<u64> = Vec::new();
        let mut i: usize = 0;
        proof {
            assert(self.inners@.take(0) =~= Seq::<crate::metrics::histogram::Histogram>::empty());
            assert(out@ =~= all_sum_terms(self.inners@.take(0)));
        }
        while i < self.inners.len()
            invariant
                i <= self.inners@.len(),
                out@ == all_sum_terms(self.inners@.take(i as int)),
            decreases self.inners@.len() - i,
        {
            proof {
                assert(self.inners@.take(i as int + 1).drop_last() =~= self.inners@.take(
                    i as int,
                ));
                assert(self.inners@.take(i as int + 1).last() == self.inners@[i as int]);
            }
            let h = &self.inners[i];
            let mut k: usize = 0;
            while k < h.sum_terms.len()
                invariant
                    k <= h.sum_terms@.len(),
                    h == &self.inners@[i as int],
                    i < self.inners@.len(),
                    out@ == all_sum_terms(self.inners@.take(i as int)) + h.sum_terms@.take(
                        k as int,
                    ),
                decreases h.sum_terms@.len() - k,
            {
                out.push(h.sum_terms[k]);
                proof {
                    assert(h.sum_terms@.take(k as int).push(h.sum_terms@[k as int])
                        =~= h.sum_terms@.take(k as int + 1));
                    assert(out@ =~= all_sum_terms(self.inners@.take(i as int))
                        + h.sum_terms@.take(k as int + 1));
                }
                k = k + 1;
            }
            proof {
                assert(h.sum_terms@.take(h.sum_terms@.len() as int) =~= h.sum_terms@);
                assert(out@ =~= all_sum_terms(self.inners@.take(i as int + 1)));
            }
            i = i + 1;
        }
        proof {
            assert(self.inners@.take(self.inners@.len() as int) =~= self.inners@);
        }
        out
    }

    /// Merges another aggregation into this one when it carries the same
    /// metric name and label set; otherwise hands it back unchanged.
    pub fn try_merge(&mut self, other: AggregatedHistogram) -> (r: Option<AggregatedHistogram>)
        requires
            old(self).inners@.len() >= 1,
            other.inners@.len() >= 1,
        ensures
            ({
                let same = name_key(old(self).inners@[0].name) == name_key(other.inners@[0].name)
                    && labels_view(old(self).inners@[0].labels.entries@) == labels_view(
                    other.inners@[0].labels.entries@,
                );
                if same {
                    r is None && final(self).inners@ == old(self).inners@ + other.inners@
                } else {
                    r == Option::Some(other) && *final(self) == *old(self)
                }
            }),
    {
        let same = metric_name_eq(&self.inners[0].name, &other.inners[0].name) && labels_view_eq(
            &self.inners[0].labels,
            &other.inners[0].labels,
        );
        if !same {
            return Some(other);
        }
        let ghost pre = self.inners@;
        let ghost ov = other.inners@;
        let mut rest = other.inners;
        let ghost mut k: int = 0;
        proof {
            assert(rest@ =~= ov.skip(0));
            assert(self.inners@ =~= pre + ov.take(0));
        }
        while rest.len() > 0
            invariant
                0 <= k <= ov.len(),
                rest@ =~= ov.skip(k),
                self.inners@ =~= pre + ov.take(k),
            decreases rest@.len(),
        {
            let h = rest.remove(0);
            proof {
                assert(ov.skip(k)[0] == ov[k]);
                assert(ov.skip(k).drop_first() =~= ov.skip(k + 1));
            }
            self.inners.push(h);
            proof {
                assert(ov.take(k).push(ov[k]) =~= ov.take(k + 1));
                k = k + 1;
            }
        }
        proof {
            assert(ov.skip(k).len() == 0);
            assert(ov.take(k) =~= ov);
        }
        None
    }

    /// The merged cumulative buckets of the whole aggregation: one entry per
    /// distinct upper bound, ascending, each carrying the count of every
    /// sample at or below it across all aggregated histograms.
    pub fn cumulative_buckets(&self) -> (r: Vec<(u64, u128)>)
        ensures
            exists|sp: Seq<(u64, u64)>|
                {
                    &&& #[trigger] sp.to_multiset() == all_pairs(self.inners@).to_multiset()
                    &&& pairs_sorted(sp)
                    &&& r@.len() == merged_runs(sp).len()
                    &&& forall|k: int|
                        0 <= k < r@.len() ==> (#[trigger] r@[k]).0 == merged_runs(sp)[k].0
                            && r@[k].1 == merged_runs(sp)[k].1
                },
    {
        let mut pairs: Vec<(u64, u64)> = Vec::new();
        let mut i: usize = 0;
        proof {
            assert(self.inners@.take(0) =~= Seq::<crate::metrics::histogram::Histogram>::empty());
            assert(pairs@ =~= all_pairs(self.inners@.take(0)));
        }
        while i < self.inners.len()
            invariant
                i <= self.inners@.len(),
                pairs@ == all_pairs(self.inners@.take(i as int)),
            decreases self.inners@.len() - i,
        {
            proof {
                assert(self.inners@.take(i as int + 1).drop_last() =~= self.inners@.take(
                    i as int,
                ));
                assert(self.inners@.take(i as int + 1).last() == self.inners@[i as int]);
            }
            let h = &self.inners[i];
            let mut k: usize = 0;
            while k < h.buckets.len()
                invariant
                    k <= h.buckets@.len(),
                    h == &self.inners@[i as int],
                    i < self.inners@.len(),
                    pairs@ == all_pairs(self.inners@.take(i as int)) + hist_pairs(
                        self.inners@[i as int],
                    ).take(k as int),
                decreases h.buckets@.len() - k,
            {
                let b = &h.buckets[k];
                pairs.push((b.upper_bound, b.count.value));
                proof {
                    let hp = hist_pairs(self.inners@[i as int]);
                    assert(hp[k as int] == (b.upper_bound, b.count.value));
                    assert(hp.take(k as int).push(hp[k as int]) =~= hp.take(k as int + 1));
                    assert(pairs@ =~= all_pairs(self.inners@.take(i as int)) + hp.take(
                        k as int + 1,
                    ));
                }
                k = k + 1;
            }
            proof {
                let hp = hist_pairs(self.inners@[i as int]);
                assert(hp.take(hp.len() as int) =~= hp);
                assert(pairs@ =~= all_pairs(self.inners@.take(i as int + 1)));
            }
            i = i + 1;
        }
        proof {
            assert(self.inners@.take(self.inners@.len() as int) =~= self.inners@);
        }
        let sorted = sort_pairs(pairs);
        let r = merge_cumulative(&sorted);
        proof {
            assert(sorted@.to_multiset() == all_pairs(self.inners@).to_multiset());
        }
        r
    }
}

/// The observed values of every histogram in the aggregation, in order.
pub open spec fn all_sum_terms(hs: Seq<crate::metrics::histogram::Histogram>) -> Seq<u64>
    decreases hs.len(),
{
    if hs.len() == 0 {
        Seq::empty()
    } else {
        all_sum_terms(hs.drop_last()) + hs.last().sum_terms@
    }
}

/// The counts sum to no more than one full count per histogram.
proof fn lemma_sum_hist_counts_bound(hs: Seq<crate::metrics::histogram::Histogram>)
    ensures
        sum_hist_counts(hs) <= hs.len() * 0xFFFF_FFFF_FFFF_FFFF,
    decreases hs.len(),
{
    if hs.len() > 0 {
        lemma_sum_hist_counts_bound(hs.drop_last());
        assert((hs.len() - 1) * 0xFFFF_FFFF_FFFF_FFFF + 0xFFFF_FFFF_FFFF_FFFF == hs.len()
            * 0xFFFF_FFFF_FFFF_FFFF) by (nonlinear_arith);
    }
}

/// The count never goes negative.
proof fn lemma_sum_hist_counts_nonneg(hs: Seq<crate::metrics::histogram::Histogram>)
    ensures
        sum_hist_counts(hs) >= 0,
    decreases hs.len(),
{
    if hs.len() > 0 {
        lemma_sum_hist_counts_nonneg(hs.drop_last());
    }
}

/// A prefix counts no more than the whole.
proof fn lemma_sum_hist_counts_mono(hs: Seq<crate::metrics::histogram::Histogram>, i: int)
    requires
        0 <= i <= hs.len(),
    ensures
        sum_hist_counts(hs.take(i)) <= sum_hist_counts(hs),
    decreases hs.len() - i,
{
    if i < hs.len() {
        assert(hs.take(i + 1).drop_last() =~= hs.take(i));
        assert(hs.take(i + 1).last() == hs[i]);
        lemma_sum_hist_counts_mono(hs, i + 1);
    } else {
        assert(hs.take(i) =~= hs);
    }
}


/// A metric aggregating counters that share a name and a label set: their
/// values add.
#[derive(Debug, Clone)]
pub struct AggregatedCounter {
    /// The shared metric name.
    pub name: MetricName,
    /// The shared labels.
    pub labels: Labels,
    /// The latest timestamp among the aggregated counters.
    pub timestamp: Option<i64>,
    /// The value terms of every aggregated counter, in order; their
    /// floating-point sum is the aggregation's value.
    pub terms: Vec<crate::render::Term>,
}

impl AggregatedCounter {
    /// Wraps one counter.
    pub fn new(counter: crate::metrics::counter::Counter) -> (r: Self)
        ensures
            r.name == counter.name,
            r.labels == counter.labels,
            r.timestamp == counter.timestamp@,
            r.terms@ == crate::metrics::counter::counter_terms(counter),
    {
        let terms = counter.value_terms();
        let timestamp = counter.timestamp.get();
        AggregatedCounter { name: counter.name, labels: counter.labels, timestamp, terms }
    }

    /// Returns the name of this metric.
    pub fn metric_name(&self) -> (r: &MetricName)
        ensures
            *r == self.name,
    {
        &self.name
    }

    /// Returns the labels of this metric.
    pub fn labels(&self) -> (r: &Labels)
        ensures
            *r == self.labels,
    {
        &self.labels
    }

    /// Returns the latest timestamp among the aggregated counters.
    pub fn timestamp(&self) -> (r: Option<i64>)
        ensures
            r == self.timestamp,
    {
        self.timestamp
    }

    /// The value terms of the aggregation, whose floating-point sum is its
    /// value.
    pub fn value_terms(&self) -> (r: &Vec<crate::render::Term>)
        ensures
            r == self.terms,
    {
        &self.terms
    }

    /// Merges another aggregation into this one when it carries the same
    /// metric name and label set; otherwise hands it back unchanged.
    pub fn try_merge(&mut self, other: AggregatedCounter) -> (r: Option<AggregatedCounter>)
        ensures
            ({
                let same = name_key(old(self).name) == name_key(other.name) && labels_view(
                    old(self).labels.entries@,
                ) == labels_view(other.labels.entries@);
                if same {
                    &&& r is None
                    &&& final(self).terms@ == old(self).terms@ + other.terms@
                    &&& final(self).timestamp == opt_ts_max(old(self).timestamp, other.timestamp)
                    &&& final(self).name == old(self).name
                    &&& final(self).labels == old(self).labels
                } else {
                    r == Option::Some(other) && *final(self) == *old(self)
                }
            }),
    {
        let same = metric_name_eq(&self.name, &other.name) && labels_view_eq(
            &self.labels,
            &other.labels,
        );
        if !same {
            return Some(other);
        }
        self.timestamp = opt_ts_max_exec(self.timestamp, other.timestamp);
        let ghost pre = self.terms@;
        let ghost ov = other.terms@;
        let mut rest = other.terms;
        let ghost mut k: int = 0;
        proof {
            assert(rest@ =~= ov.skip(0));
            assert(self.terms@ =~= pre + ov.take(0));
        }
        while rest.len() > 0
            invariant
                0 <= k <= ov.len(),
                rest@ =~= ov.skip(k),
                self.terms@ =~= pre + ov.take(k),
                self.name == old(self).name,
                self.labels == old(self).labels,
                self.timestamp == opt_ts_max(old(self).timestamp, other.timestamp),
            decreases rest@.len(),
        {
            let t = rest.remove(0);
            proof {
                assert(ov.skip(k)[0] == ov[k]);
                assert(ov.skip(k).drop_first() =~= ov.skip(k + 1));
            }
            self.terms.push(t);
            proof {
                assert(ov.take(k).push(ov[k]) =~= ov.take(k + 1));
                k = k + 1;
            }
        }
        proof {
            assert(ov.skip(k).len() == 0);
            assert(ov.take(k) =~= ov);
        }
        None
    }
}

/// A metric aggregating gauges that share a name and a label set: their
/// values add.
#[derive(Debug, Clone)]
pub struct AggregatedGauge {
    /// The shared metric name.
    pub name: MetricName,
    /// The shared labels.
    pub labels: Labels,
    /// The latest timestamp among the aggregated gauges.
    pub timestamp: Option<i64>,
    /// The value of every aggregated gauge, in order, as IEEE-754 bit
    /// patterns; their floating-point sum is the aggregation's value.
    pub values: Vec<u64>,
}

impl AggregatedGauge {
    /// Wraps one gauge.
    pub fn new(gauge: crate::metrics::gauge::Gauge) -> (r: Self)
        ensures
            r.name == gauge.name,
            r.labels == gauge.labels,
            r.timestamp == gauge.timestamp@,
            r.values@ == seq![gauge.value.value],
    {
        let timestamp = gauge.timestamp.get();
        let mut values: Vec<u64> = Vec::new();
        values.push(gauge.value.get());
        proof {
            assert(values@ =~= seq![gauge.value.value]);
        }
        AggregatedGauge { name: gauge.name, labels: gauge.labels, timestamp, values }
    }

    /// Returns the name of this metric.
    pub fn metric_name(&self) -> (r: &MetricName)
        ensures
            *r == self.name,
    {
        &self.name
    }

    /// Returns the labels of this metric.
    pub fn labels(&self) -> (r: &Labels)
        ensures
            *r == self.labels,
    {
        &self.labels
    }

    /// Returns the latest timestamp among the aggregated gauges.
    pub fn timestamp(&self) -> (r: Option<i64>)
        ensures
            r == self.timestamp,
    {
        self.timestamp
    }

    /// The values of the aggregation, whose floating-point sum is its value.
    pub fn values(&self) -> (r: &Vec<u64>)
        ensures
            r == self.values,
    {
        &self.values
    }

    /// Merges another aggregation into this one when it carries the same
    /// metric name and label set; otherwise hands it back unchanged.
    pub fn try_merge(&mut self, other: AggregatedGauge) -> (r: Option<AggregatedGauge>)
        ensures
            ({
                let same = name_key(old(self).name) == name_key(other.name) && labels_view(
                    old(self).labels.entries@,
                ) == labels_view(other.labels.entries@);
                if same {
                    &&& r is None
                    &&& final(self).values@ == old(self).values@ + other.values@
                    &&& final(self).timestamp == opt_ts_max(old(self).timestamp, other.timestamp)
                    &&& final(self).name == old(self).name
                    &&& final(self).labels == old(self).labels
                } else {
                    r == Option::Some(other) && *final(self) == *old(self)
                }
            }),
    {
        let same = metric_name_eq(&self.name, &other.name) && labels_view_eq(
            &self.labels,
            &other.labels,
        );
        if !same {
            return Some(other);
        }
        self.timestamp = opt_ts_max_exec(self.timestamp, other.timestamp);
        let ghost pre = self.values@;
        let ghost ov = other.values@;
        let mut rest = other.values;
        let ghost mut k: int = 0;
        proof {
            assert(rest@ =~= ov.skip(0));
            assert(self.values@ =~= pre + ov.take(0));
        }
        while rest.len() > 0
            invariant
                0 <= k <= ov.len(),
                rest@ =~= ov.skip(k),
                self.values@ =~= pre + ov.take(k),
                self.name == old(self).name,
                self.labels == old(self).labels,
                self.timestamp == opt_ts_max(old(self).timestamp, other.timestamp),
            decreases rest@.len(),
        {
            let t = rest.remove(0);
            proof {
                assert(ov.skip(k)[0] == ov[k]);
                assert(ov.skip(k).drop_first() =~= ov.skip(k + 1));
            }
            self.values.push(t);
            proof {
                assert(ov.take(k).push(ov[k]) =~= ov.take(k + 1));
                k = k + 1;
            }
        }
        proof {
            assert(ov.skip(k).len() == 0);
            assert(ov.take(k) =~= ov);
        }
        None
    }
}


/// The retained sample values of every summary in the aggregation, each
/// against its own window, pooled in order.
pub open spec fn pooled_values(ss: Seq<Summary>, now: int) -> Seq<u64>
    decreases ss.len(),
{
    if ss.len() == 0 {
        Seq::empty()
    } else {
        pooled_values(ss.drop_last(), now) + retained_values(
            ss.last().samples@,
            now,
            ss.last().window_millis as int,
        )
    }
}

/// The requested quantiles of every summary in the aggregation, in order.
pub open spec fn all_quantiles(ss: Seq<Summary>) -> Seq<u64>
    decreases ss.len(),
{
    if ss.len() == 0 {
        Seq::empty()
    } else {
        all_quantiles(ss.drop_last()) + ss.last().quantiles@
    }
}

/// Every pooled quantile comes from one of the aggregated summaries.
proof fn lemma_all_quantiles_member(ss: Seq<Summary>, x: u64)
    requires
        all_quantiles(ss).contains(x),
    ensures
        exists|i: int| 0 <= i < ss.len() && (#[trigger] ss[i]).quantiles@.contains(x),
    decreases ss.len(),
{
    if ss.len() > 0 {
        let a = all_quantiles(ss.drop_last());
        let b = ss.last().quantiles@;
        let k = choose|k: int| 0 <= k < all_quantiles(ss).len() && all_quantiles(ss)[k] == x;
        if k < a.len() {
            assert(a[k] == x);
            lemma_all_quantiles_member(ss.drop_last(), x);
            let i = choose|i: int|
                0 <= i < ss.drop_last().len() && (#[trigger] ss.drop_last()[i]).quantiles@.contains(
                    x,
                );
            assert(ss[i].quantiles@.contains(x));
        } else {
            assert(b[k - a.len()] == x);
            assert(ss[ss.len() - 1].quantiles@.contains(x));
        }
    }
}

/// The all-time observation count over the aggregation.
pub open spec fn sum_summary_counts(ss: Seq<Summary>) -> int
    decreases ss.len(),
{
    if ss.len() == 0 {
        0
    } else {
        sum_summary_counts(ss.drop_last()) + ss.last().count.value
    }
}

/// The all-time observed values of every summary in the aggregation.
pub open spec fn all_summary_terms(ss: Seq<Summary>) -> Seq<u64>
    decreases ss.len(),
{
    if ss.len() == 0 {
        Seq::empty()
    } else {
        all_summary_terms(ss.drop_last()) + ss.last().sum_terms@
    }
}

/// The latest timestamp in the aggregation.
pub open spec fn summary_ts_max(ss: Seq<Summary>) -> Option<i64>
    decreases ss.len(),
{
    if ss.len() == 0 {
        Option::None
    } else {
        opt_ts_max(summary_ts_max(ss.drop_last()), ss.last().timestamp@)
    }
}

/// The counts sum to no more than one full count per summary.
proof fn lemma_sum_summary_counts_bound(ss: Seq<Summary>)
    ensures
        sum_summary_counts(ss) <= ss.len() * 0xFFFF_FFFF_FFFF_FFFF,
        sum_summary_counts(ss) >= 0,
    decreases ss.len(),
{
    if ss.len() > 0 {
        lemma_sum_summary_counts_bound(ss.drop_last());
        assert((ss.len() - 1) * 0xFFFF_FFFF_FFFF_FFFF + 0xFFFF_FFFF_FFFF_FFFF == ss.len()
            * 0xFFFF_FFFF_FFFF_FFFF) by (nonlinear_arith);
    }
}

/// A prefix counts no more than the whole.
proof fn lemma_sum_summary_counts_mono(ss: Seq<Summary>, i: int)
    requires
        0 <= i <= ss.len(),
    ensures
        sum_summary_counts(ss.take(i)) <= sum_summary_counts(ss),
    decreases ss.len() - i,
{
    if i < ss.len() {
        assert(ss.take(i + 1).drop_last() =~= ss.take(i));
        assert(ss.take(i + 1).last() == ss[i]);
        lemma_sum_summary_counts_mono(ss, i + 1);
    } else {
        assert(ss.take(i) =~= ss);
    }
}

/// A metric aggregating summaries that share a name and a label set: their
/// retained samples pool, and the union of their quantiles is evaluated
/// against the pool.
#[derive(Debug, Clone)]
pub struct AggregatedSummary {
    /// The aggregated summaries; never empty.
    pub inners: Vec<Summary>,
}

impl AggregatedSummary {
    /// Wraps one summary.
    pub fn new(summary: Summary) -> (r: Self)
        ensures
            r.inners@ == seq![summary],
    {
        let mut inners: Vec<Summary> = Vec::new();
        inners.push(summary);
        proof {
            assert(inners@ =~= seq![summary]);
        }
        AggregatedSummary { inners }
    }

    /// Returns the name of this metric.
    pub fn metric_name(&self) -> (r: &MetricName)
        requires
            self.inners@.len() >= 1,
        ensures
            *r == self.inners@[0].name,
    {
        &self.inners[0].name
    }

    /// Returns the labels of this metric.
    pub fn labels(&self) -> (r: &Labels)
        requires
            self.inners@.len() >= 1,
        ensures
            *r == self.inners@[0].labels,
    {
        &self.inners[0].labels
    }

    /// Returns the latest timestamp among the aggregated summaries.
    pub fn timestamp(&self) -> (r: Option<i64>)
        ensures
            r == summary_ts_max(self.inners@),
    {
        let mut acc: Option<i64> = None;
        let mut i: usize = 0;
        proof {
            assert(self.inners@.take(0) =~= Seq::<Summary>::empty());
        }
        while i < self.inners.len()
            invariant
                i <= self.inners@.len(),
                acc == summary_ts_max(self.inners@.take(i as int)),
            decreases self.inners@.len() - i,
        {
            proof {
                assert(self.inners@.take(i as int + 1).drop_last() =~= self.inners@.take(
                    i as int,
                ));
                assert(self.inners@.take(i as int + 1).last() == self.inners@[i as int]);
            }
            acc = opt_ts_max_exec(acc, self.inners[i].timestamp.get());
            i = i + 1;
        }
        proof {
            assert(self.inners@.take(self.inners@.len() as int) =~= self.inners@);
        }
        acc
    }

    /// Returns the all-time observation count over the aggregation.
    pub fn count(&self) -> (r: u128)
        ensures
            r == sum_summary_counts(self.inners@),
    {
        let mut acc: u128 = 0;
        let mut i: usize = 0;
        let total = self.inners.len();
        proof {
            assert(self.inners@.take(0) =~= Seq::<Summary>::empty());
            lemma_sum_summary_counts_bound(self.inners@);
            assert(self.inners@.len() == total as int);
            assert(self.inners@.len() < 0x1_0000_0000_0000_0000);
            assert(self.inners@.len() * 0xFFFF_FFFF_FFFF_FFFF
                < 0x1_0000_0000_0000_0000_0000_0000_0000_0000) by (nonlinear_arith)
                requires
                    0 <= self.inners@.len() < 0x1_0000_0000_0000_0000,
            ;
        }
        while i < self.inners.len()
            invariant
                i <= self.inners@.len(),
                acc == sum_summary_counts(self.inners@.take(i as int)),
                sum_summary_counts(self.inners@) < 0x1_0000_0000_0000_0000_0000_0000_0000_0000,
            decreases self.inners@.len() - i,
        {
            proof {
                assert(self.inners@.take(i as int + 1).drop_last() =~= self.inners@.take(
                    i as int,
                ));
                assert(self.inners@.take(i as int + 1).last() == self.inners@[i as int]);
                lemma_sum_summary_counts_mono(self.inners@, i as int + 1);
                lemma_sum_summary_counts_bound(self.inners@.take(i as int));
            }
            acc = acc + self.inners[i].count() as u128;
            i = i + 1;
        }
        proof {
            assert(self.inners@.take(self.inners@.len() as int) =~= self.inners@);
        }
        acc
    }

    /// The all-time observed values over the whole aggregation, whose
    /// floating-point sum is the aggregation's sum.
    pub fn sum_terms(&self) -> (r: Vec<u64>)
        ensures
            r@ == all_summary_terms(self.inners@),
    {
        let mut out: Vec<u64> = Vec::new();
        let mut i: usize = 0;
        proof {
            assert(self.inners@.take(0) =~= Seq::<Summary>::empty());
            assert(out@ =~= all_summary_terms(self.inners@.take(0)));
        }
        while i < self.inners.len()
            invariant
                i <= self.inners@.len(),
                out@ == all_summary_terms(self.inners@.take(i as int)),
            decreases self.inners@.len() - i,
        {
            proof {
                assert(self.inners@.take(i as int + 1).drop_last() =~= self.inners@.take(
                    i as int,
                ));
                assert(self.inners@.take(i as int + 1).last() == self.inners@[i as int]);
            }
            let sm = &self.inners[i];
            let mut k: usize = 0;
            while k < sm.sum_terms.len()
                invariant
                    k <= sm.sum_terms@.len(),
                    sm == &self.inners@[i as int],
                    i < self.inners@.len(),
                    out@ == all_summary_terms(self.inners@.take(i as int)) + sm.sum_terms@.take(
                        k as int,
                    ),
                decreases sm.sum_terms@.len() - k,
            {
                out.push(sm.sum_terms[k]);
                proof {
                    assert(sm.sum_terms@.take(k as int).push(sm.sum_terms@[k as int])
                        =~= sm.sum_terms@.take(k as int + 1));
                    assert(out@ =~= all_summary_terms(self.inners@.take(i as int))
                        + sm.sum_terms@.take(k as int + 1));
                }
                k = k + 1;
            }
            proof {
                assert(sm.sum_terms@.take(sm.sum_terms@.len() as int) =~= sm.sum_terms@);
                assert(out@ =~= all_summary_terms(self.inners@.take(i as int + 1)));
            }
            i = i + 1;
        }
        proof {
            assert(self.inners@.take(self.inners@.len() as int) =~= self.inners@);
        }
        out
    }

    /// Merges another aggregation into this one when it carries the same
    /// metric name and label set; otherwise hands it back unchanged.
    pub fn try_merge(&mut self, other: AggregatedSummary) -> (r: Option<AggregatedSummary>)
        requires
            old(self).inners@.len() >= 1,
            other.inners@.len() >= 1,
        ensures
            ({
                let same = name_key(old(self).inners@[0].name) == name_key(other.inners@[0].name)
                    && labels_view(old(self).inners@[0].labels.entries@) == labels_view(
                    other.inners@[0].labels.entries@,
                );
                if same {
                    r is None && final(self).inners@ == old(self).inners@ + other.inners@
                } else {
                    r == Option::Some(other) && *final(self) == *old(self)
                }
            }),
    {
        let same = metric_name_eq(&self.inners[0].name, &other.inners[0].name) && labels_view_eq(
            &self.inners[0].labels,
            &other.inners[0].labels,
        );
        if !same {
            return Some(other);
        }
        let ghost pre = self.inners@;
        let ghost ov = other.inners@;
        let mut rest = other.inners;
        let ghost mut k: int = 0;
        proof {
            assert(rest@ =~= ov.skip(0));
            assert(self.inners@ =~= pre + ov.take(0));
        }
        while rest.len() > 0
            invariant
                0 <= k <= ov.len(),
                rest@ =~= ov.skip(k),
                self.inners@ =~= pre + ov.take(k),
            decreases rest@.len(),
        {
            let h = rest.remove(0);
            proof {
                assert(ov.skip(k)[0] == ov[k]);
                assert(ov.skip(k).drop_first() =~= ov.skip(k + 1));
            }
            self.inners.push(h);
            proof {
                assert(ov.take(k).push(ov[k]) =~= ov.take(k + 1));
                k = k + 1;
            }
        }
        proof {
            assert(ov.skip(k).len() == 0);
            assert(ov.take(k) =~= ov);
        }
        None
    }

    /// The quantile/value pairs of the aggregation as of time `now`: the
    /// union of the requested quantiles, each evaluated by nearest rank
    /// against the pooled, sorted, retained samples of every aggregated
    /// summary; empty when no sample is retained.
    pub fn quantiles_at(&self, now: i64) -> (r: Vec<(u64, u64)>)
        requires
            forall|i: int| 0 <= i < self.inners@.len() ==> summary_wf(#[trigger] self.inners@[i]),
        ensures
            ({
                let pooled = pooled_values(self.inners@, now as int);
                let sorted = sort_spec(pooled);
                let uq = dedup_sorted(sort_spec(all_quantiles(self.inners@)));
                if pooled.len() == 0 {
                    r@.len() == 0
                } else {
                    &&& r@.len() == uq.len()
                    &&& forall|k: int|
                        0 <= k < r@.len() ==> (#[trigger] r@[k]).0 == uq[k] && r@[k].1
                            == sorted[nearest_rank(uq[k], pooled.len() as int)]
                }
            }),
    {
        let ghost pooled_spec = pooled_values(self.inners@, now as int);
        let mut pool: Vec<u64> = Vec::new();
        let mut i: usize = 0;
        proof {
            assert(self.inners@.take(0) =~= Seq::<Summary>::empty());
            assert(pool@ =~= pooled_values(self.inners@.take(0), now as int));
        }
        while i < self.inners.len()
            invariant
                i <= self.inners@.len(),
                pool@ == pooled_values(self.inners@.take(i as int), now as int),
            decreases self.inners@.len() - i,
        {
            proof {
                assert(self.inners@.take(i as int + 1).drop_last() =~= self.inners@.take(
                    i as int,
                ));
                assert(self.inners@.take(i as int + 1).last() == self.inners@[i as int]);
            }
            let vals = self.inners[i].retained(now);
            let ghost vv = vals@;
            let mut rest = vals;
            let ghost mut k: int = 0;
            proof {
                assert(rest@ =~= vv.skip(0));
                assert(pool@ =~= pooled_values(self.inners@.take(i as int), now as int) + vv.take(
                    0,
                ));
            }
            while rest.len() > 0
                invariant
                    0 <= k <= vv.len(),
                    rest@ =~= vv.skip(k),
                    pool@ =~= pooled_values(self.inners@.take(i as int), now as int) + vv.take(k),
                decreases rest@.len(),
            {
                let x = rest.remove(0);
                proof {
                    assert(vv.skip(k)[0] == vv[k]);
                    assert(vv.skip(k).drop_first() =~= vv.skip(k + 1));
                }
                pool.push(x);
                proof {
                    assert(vv.take(k).push(vv[k]) =~= vv.take(k + 1));
                    k = k + 1;
                }
            }
            proof {
                assert(vv.skip(k).len() == 0);
                assert(vv.take(k) =~= vv);
                assert(pool@ =~= pooled_values(self.inners@.take(i as int + 1), now as int));
            }
            i = i + 1;
        }
        proof {
            assert(self.inners@.take(self.inners@.len() as int) =~= self.inners@);
        }
        let mut out: Vec<(u64, u64)> = Vec::new();
        if pool.len() == 0 {
            return out;
        }
        let sorted = sort_bits(&pool);
        proof {
            lemma_sort_spec_is(pooled_spec, sorted@);
        }
        let n = sorted.len();
        let mut qcat: Vec<u64> = Vec::new();
        let mut i2: usize = 0;
        proof {
            assert(qcat@ =~= all_quantiles(self.inners@.take(0)));
        }
        while i2 < self.inners.len()
            invariant
                i2 <= self.inners@.len(),
                qcat@ == all_quantiles(self.inners@.take(i2 as int)),
            decreases self.inners@.len() - i2,
        {
            proof {
                assert(self.inners@.take(i2 as int + 1).drop_last() =~= self.inners@.take(
                    i2 as int,
                ));
                assert(self.inners@.take(i2 as int + 1).last() == self.inners@[i2 as int]);
            }
            let sm = &self.inners[i2];
            let mut k: usize = 0;
            while k < sm.quantiles.len()
                invariant
                    k <= sm.quantiles@.len(),
                    sm == &self.inners@[i2 as int],
                    i2 < self.inners@.len(),
                    qcat@ == all_quantiles(self.inners@.take(i2 as int)) + sm.quantiles@.take(
                        k as int,
                    ),
                decreases sm.quantiles@.len() - k,
            {
                qcat.push(sm.quantiles[k]);
                proof {
                    assert(sm.quantiles@.take(k as int).push(sm.quantiles@[k as int])
                        =~= sm.quantiles@.take(k as int + 1));
                    assert(qcat@ =~= all_quantiles(self.inners@.take(i2 as int))
                        + sm.quantiles@.take(k as int + 1));
                }
                k = k + 1;
            }
            proof {
                assert(sm.quantiles@.take(sm.quantiles@.len() as int) =~= sm.quantiles@);
                assert(qcat@ =~= all_quantiles(self.inners@.take(i2 as int + 1)));
            }
            i2 = i2 + 1;
        }
        proof {
            assert(self.inners@.take(self.inners@.len() as int) =~= self.inners@);
        }
        let qsorted = sort_bits(&qcat);
        proof {
            lemma_sort_spec_is(all_quantiles(self.inners@), qsorted@);
        }
        let uq = dedup_bits(&qsorted);
        proof {
            lemma_dedup_subset(qsorted@);
            qsorted@.to_multiset_ensures();
            qcat@.to_multiset_ensures();
            assert forall|k: int|
                0 <= k < uq@.len() implies crate::float_bits::valid_quantile(
                #[trigger] uq@[k],
            ) by {
                assert(uq@.contains(uq@[k]));
                assert(qsorted@.contains(uq@[k]));
                assert(qsorted@.to_multiset().count(uq@[k]) > 0);
                assert(qcat@.to_multiset().count(uq@[k]) > 0);
                assert(qcat@.contains(uq@[k]));
                lemma_all_quantiles_member(self.inners@, uq@[k]);
                let w = choose|w: int|
                    0 <= w < self.inners@.len() && (#[trigger] self.inners@[w]).quantiles@.contains(
                        uq@[k],
                    );
                assert(summary_wf(self.inners@[w]));
                let wq = choose|wq: int|
                    0 <= wq < self.inners@[w].quantiles@.len() && self.inners@[w].quantiles@[wq]
                        == uq@[k];
                assert(crate::float_bits::valid_quantile(self.inners@[w].quantiles@[wq]));
            }
        }
        let mut k: usize = 0;
        while k < uq.len()
            invariant
                k <= uq@.len(),
                n == sorted@.len(),
                n >= 1,
                forall|m: int|
                    0 <= m < uq@.len() ==> crate::float_bits::valid_quantile(#[trigger] uq@[m]),
                out@.len() == k as int,
                forall|m: int|
                    0 <= m < k ==> (#[trigger] out@[m]).0 == uq@[m] && out@[m].1
                        == sorted@[nearest_rank(uq@[m], n as int)],
            decreases uq@.len() - k,
        {
            let q = uq[k];
            let idx = crate::float_bits::quantile_index(q, n);
            out.push((q, sorted[idx]));
            k = k + 1;
        }
        out
    }
}

} // verus!
