//! Aggregation of same-name, same-label metrics.
use prometrics::aggregated_metrics::{
    AggregatedCounter, AggregatedGauge, AggregatedHistogram, AggregatedSummary,
};
use prometrics::metrics::counter::CounterBuilder;
use prometrics::metrics::gauge::GaugeBuilder;
use prometrics::metrics::histogram::HistogramBuilder;
use prometrics::metrics::summary::SummaryBuilder;
use prometrics::render::Term;

fn terms_value(terms: &Vec<Term>) -> f64 {
    let mut acc = 0.0f64;
    for t in terms.iter() {
        match t {
            Term::Whole(n) => acc += *n as f64,
            Term::Bits(x) => acc += f64::from_bits(*x),
        }
    }
    acc
}

#[test]
fn aggregated_counters_add_their_values() {
    let mut c1 = CounterBuilder::new("count").finish().unwrap();
    c1.increment();
    let mut c2 = CounterBuilder::new("count").finish().unwrap();
    c2.increment();
    c2.add(0.5f64.to_bits()).unwrap();
    let mut agg = AggregatedCounter::new(c1);
    assert!(agg.try_merge(AggregatedCounter::new(c2)).is_none());
    assert_eq!(terms_value(agg.value_terms()), 2.5);

    // A counter of another name does not merge and comes back untouched.
    let other = CounterBuilder::new("different").finish().unwrap();
    let back = agg.try_merge(AggregatedCounter::new(other));
    assert!(back.is_some());
    assert_eq!(terms_value(agg.value_terms()), 2.5);
}

#[test]
fn aggregated_gauges_add_their_values() {
    let g1 = {
        let mut g = GaugeBuilder::new("gauge").label("foo", "bar").finish().unwrap();
        g.set(12.3f64.to_bits());
        g
    };
    let g2 = {
        let mut g = GaugeBuilder::new("gauge").label("foo", "bar").finish().unwrap();
        g.set(12.3f64.to_bits());
        g
    };
    let mut agg = AggregatedGauge::new(g1);
    assert!(agg.try_merge(AggregatedGauge::new(g2)).is_none());
    let total: f64 = agg.values().iter().map(|b| f64::from_bits(*b)).sum();
    assert_eq!(total, 24.6);

    // The same name under different labels stays separate.
    let g3 = GaugeBuilder::new("gauge").finish().unwrap();
    assert!(agg.try_merge(AggregatedGauge::new(g3)).is_some());
}

#[test]
fn aggregated_histograms_merge_buckets_by_bound() {
    let mut h1 = HistogramBuilder::new("histogram")
        .bucket(5.0f64.to_bits())
        .finish()
        .unwrap();
    h1.observe(4.0f64.to_bits());
    let mut h2 = HistogramBuilder::new("histogram")
        .bucket(10.0f64.to_bits())
        .finish()
        .unwrap();
    h2.observe(8.0f64.to_bits());

    let mut agg = AggregatedHistogram::new(h1);
    assert!(agg.try_merge(AggregatedHistogram::new(h2)).is_none());

    let merged: Vec<(f64, u128)> = agg
        .cumulative_buckets()
        .iter()
        .map(|&(b, c)| (f64::from_bits(b), c))
        .collect();
    assert_eq!(
        merged,
        vec![(5.0, 1), (10.0, 2), (f64::INFINITY, 2)]
    );
    assert_eq!(agg.count(), 2);
    let sum: f64 = agg.sum_terms().iter().map(|b| f64::from_bits(*b)).sum();
    assert_eq!(sum, 12.0);
}

#[test]
fn aggregated_histograms_share_exactly_equal_bounds() {
    let mut h1 = HistogramBuilder::new("h")
        .bucket(1.0f64.to_bits())
        .finish()
        .unwrap();
    h1.observe(0.5f64.to_bits());
    let mut h2 = HistogramBuilder::new("h")
        .bucket(1.0f64.to_bits())
        .finish()
        .unwrap();
    h2.observe(0.5f64.to_bits());
    h2.observe(7.0f64.to_bits());

    let mut agg = AggregatedHistogram::new(h1);
    assert!(agg.try_merge(AggregatedHistogram::new(h2)).is_none());
    let merged: Vec<(f64, u128)> = agg
        .cumulative_buckets()
        .iter()
        .map(|&(b, c)| (f64::from_bits(b), c))
        .collect();
    // The two 1.0 bounds are one merged bucket; the two +infinity buckets
    // are one as well.
    assert_eq!(merged, vec![(1.0, 2), (f64::INFINITY, 3)]);
}

#[test]
fn aggregated_summaries_pool_samples_and_quantiles() {
    let mut s1 = SummaryBuilder::new("s", 10_000)
        .quantile(0.5f64.to_bits())
        .finish()
        .unwrap();
    s1.observe_at(7.0f64.to_bits(), 0);
    s1.observe_at(12.0f64.to_bits(), 0);
    let mut s2 = SummaryBuilder::new("s", 10_000)
        .quantile(0.5f64.to_bits())
        .quantile(1.0f64.to_bits())
        .finish()
        .unwrap();
    s2.observe_at(50.0f64.to_bits(), 0);
    s2.observe_at(10.0f64.to_bits(), 0);
    s2.observe_at(33.0f64.to_bits(), 0);

    let mut agg = AggregatedSummary::new(s1);
    assert!(agg.try_merge(AggregatedSummary::new(s2)).is_none());

    // Pooled and sorted: [7, 10, 12, 33, 50]; the union of the requested
    // quantiles is {0.5, 1.0}, the duplicate 0.5 collapsed.
    let quantiles: Vec<(f64, f64)> = agg
        .quantiles_at(0)
        .iter()
        .map(|&(q, v)| (f64::from_bits(q), f64::from_bits(v)))
        .collect();
    assert_eq!(quantiles, vec![(0.5, 12.0), (1.0, 50.0)]);
    assert_eq!(agg.count(), 5);
    let sum: f64 = agg.sum_terms().iter().map(|b| f64::from_bits(*b)).sum();
    assert_eq!(sum, 112.0);
}
