//! The four metric kinds, exercised one by one.
use prometrics::metric::{Metric, MetricFamilies};
use prometrics::metrics::counter::{Counter, CounterBuilder};
use prometrics::metrics::gauge::GaugeBuilder;
use prometrics::metrics::histogram::HistogramBuilder;
use prometrics::metrics::observed_counter::ObservedCounterBuilder;
use prometrics::metrics::summary::SummaryBuilder;
use prometrics::registry::{Gatherer, Registry};
use prometrics::render::{Piece, Term};

fn slot_value(terms: &Vec<Term>) -> f64 {
    let mut acc = 0.0f64;
    for t in terms.iter() {
        match t {
            Term::Whole(n) => acc += *n as f64,
            Term::Bits(x) => acc += f64::from_bits(*x),
        }
    }
    acc
}

fn num_text(v: f64) -> String {
    if v.is_nan() {
        "Nan".to_string()
    } else if v.is_finite() {
        format!("{}", v)
    } else if v.is_sign_positive() {
        "+Inf".to_string()
    } else {
        "-Inf".to_string()
    }
}

fn render(f: &MetricFamilies, now: i64) -> String {
    let pieces = f.render_pieces(now);
    let mut texts: Vec<String> = Vec::new();
    for p in pieces.iter() {
        if let Piece::Slot(terms) = p {
            texts.push(num_text(slot_value(terms)));
        }
    }
    f.to_text(now, &texts)
}

fn render_one(m: Metric) -> Vec<String> {
    let mut registry = Registry::new();
    let mut gatherer = Gatherer::new();
    registry.register();
    let metrics = gatherer.gather(&mut registry, vec![Some(vec![m])]);
    render(&metrics, 0).lines().skip(1).map(|s| s.to_string()).collect()
}

fn counter_value(c: &Counter) -> f64 {
    slot_value(&c.value_terms())
}

fn sum_value(terms: &Vec<u64>) -> f64 {
    let mut acc = 0.0f64;
    for t in terms.iter() {
        acc += f64::from_bits(*t);
    }
    acc
}

fn full_name_of(m: &prometrics::metric::MetricName) -> String {
    prometrics::metric::full_name(m)
}

#[test]
fn counter_it_works() {
    let mut counter = CounterBuilder::new("foo_total")
        .namespace("test")
        .subsystem("counter")
        .finish()
        .unwrap();
    assert_eq!(full_name_of(counter.metric_name()), "test_counter_foo_total");
    assert_eq!(counter_value(&counter), 0.0);

    counter.increment();
    assert_eq!(counter_value(&counter), 1.0);

    counter.add(3.45f64.to_bits()).unwrap();
    assert_eq!(counter_value(&counter), 4.45);

    counter.add(2.0f64.to_bits()).unwrap();
    assert_eq!(counter_value(&counter), 6.45);

    counter.add_u64(2);
    assert_eq!(counter_value(&counter), 8.45);

    let mut c2 = CounterBuilder::new("foo_total")
        .namespace("test")
        .subsystem("counter")
        .finish()
        .unwrap();
    c2.increment();
    c2.add(3.45f64.to_bits()).unwrap();
    c2.add(2.0f64.to_bits()).unwrap();
    c2.add_u64(2);
    assert_eq!(render_one(Metric::Counter(c2))[0], "test_counter_foo_total 8.45");

    counter.labels_insert("bar", "baz").unwrap();
    assert_eq!(
        render_one(Metric::Counter(counter))[0],
        r#"test_counter_foo_total{bar="baz"} 8.45"#
    );
}

#[test]
fn counter_whole_adds_stay_exact() {
    let mut counter = CounterBuilder::new("exact_total").finish().unwrap();
    counter.increment();
    counter.add(2.0f64.to_bits()).unwrap();
    counter.add_u64(3);
    // Every increment took the integer fast path: one exact term, no drift.
    let terms = counter.value_terms();
    assert_eq!(terms.len(), 1);
    assert!(matches!(terms[0], Term::Whole(6)));
}

#[test]
fn counter_rejects_negative_and_nan() {
    let mut counter = CounterBuilder::new("guarded_total").finish().unwrap();
    counter.add_u64(4);
    let err = counter.add((-1.5f64).to_bits()).unwrap_err();
    assert_eq!(err.kind(), prometrics::ErrorKind::InvalidInput);
    assert_eq!(counter_value(&counter), 4.0);
    let err = counter.add(f64::NAN.to_bits()).unwrap_err();
    assert_eq!(err.kind(), prometrics::ErrorKind::InvalidInput);
    assert_eq!(counter_value(&counter), 4.0);
    // A negative zero is not a negative amount.
    counter.add((-0.0f64).to_bits()).unwrap();
    assert_eq!(counter_value(&counter), 4.0);
}

#[test]
fn gauge_it_works() {
    let mut gauge = GaugeBuilder::new("foo").namespace("test").finish().unwrap();
    assert_eq!(full_name_of(gauge.metric_name()), "test_foo");
    assert_eq!(f64::from_bits(gauge.value()), 0.0);

    gauge.set(2.34f64.to_bits());
    assert_eq!(f64::from_bits(gauge.value()), 2.34);

    let mut g2 = GaugeBuilder::new("foo").namespace("test").finish().unwrap();
    g2.set(2.34f64.to_bits());
    assert_eq!(render_one(Metric::Gauge(g2))[0], "test_foo 2.34");

    gauge.labels_insert("bar", "baz").unwrap();
    assert_eq!(
        render_one(Metric::Gauge(gauge))[0],
        r#"test_foo{bar="baz"} 2.34"#
    );
}

#[test]
fn observed_counter_it_works() {
    let mut counter = ObservedCounterBuilder::new("foo_total")
        .namespace("test")
        .subsystem("counter")
        .finish()
        .unwrap();
    assert_eq!(full_name_of(counter.metric_name()), "test_counter_foo_total");
    assert_eq!(f64::from_bits(counter.value()), 0.0);

    counter.set(8.45f64.to_bits()).unwrap();
    assert_eq!(f64::from_bits(counter.value()), 8.45);

    let err = counter.set((-1.0f64).to_bits()).unwrap_err();
    assert_eq!(err.kind(), prometrics::ErrorKind::InvalidInput);
    assert_eq!(f64::from_bits(counter.value()), 8.45);

    let mut c2 = ObservedCounterBuilder::new("foo_total")
        .namespace("test")
        .subsystem("counter")
        .finish()
        .unwrap();
    c2.set(8.45f64.to_bits()).unwrap();
    assert_eq!(
        render_one(Metric::ObservedCounter(c2))[0],
        "test_counter_foo_total 8.45"
    );

    counter.labels_insert("bar", "baz").unwrap();
    assert_eq!(
        render_one(Metric::ObservedCounter(counter))[0],
        r#"test_counter_foo_total{bar="baz"} 8.45"#
    );
}

#[test]
fn histogram_it_works() {
    let mut histogram = HistogramBuilder::new("foo")
        .bucket(0.0f64.to_bits())
        .bucket(10.0f64.to_bits())
        .bucket(20.0f64.to_bits())
        .bucket(30.0f64.to_bits())
        .bucket(40.0f64.to_bits())
        .finish()
        .unwrap();
    assert_eq!(full_name_of(histogram.metric_name()), "foo");

    histogram.observe(7.0f64.to_bits());
    histogram.observe(12.0f64.to_bits());
    histogram.observe(50.1f64.to_bits());
    histogram.observe(10.0f64.to_bits());

    let cums: Vec<(f64, u64)> = histogram
        .cumulative_counts()
        .iter()
        .map(|b| (f64::from_bits(b.upper_bound()), b.cumulative_count()))
        .collect();
    assert_eq!(
        cums,
        vec![
            (0.0, 0),
            (10.0, 2),
            (20.0, 3),
            (30.0, 3),
            (40.0, 3),
            (f64::INFINITY, 4),
        ]
    );
    assert_eq!(histogram.count(), 4);
    assert_eq!(sum_value(histogram.sum_terms()), 79.1);

    assert_eq!(
        render_one(Metric::Histogram(histogram)).join("\n"),
        r#"foo_bucket{le="0"} 0
foo_bucket{le="10"} 2
foo_bucket{le="20"} 3
foo_bucket{le="30"} 3
foo_bucket{le="40"} 3
foo_bucket{le="+Inf"} 4
foo_sum 79.1
foo_count 4"#
    );
}

#[test]
fn summary_it_works() {
    let mut summary = SummaryBuilder::new("foo", 10_000)
        .quantile(0.25f64.to_bits())
        .quantile(0.5f64.to_bits())
        .quantile(0.75f64.to_bits())
        .finish()
        .unwrap();
    assert_eq!(full_name_of(summary.metric_name()), "foo");

    summary.observe_at(7.0f64.to_bits(), 0);
    summary.observe_at(12.0f64.to_bits(), 0);
    summary.observe_at(50.0f64.to_bits(), 0);
    summary.observe_at(10.0f64.to_bits(), 0);
    summary.observe_at(33.0f64.to_bits(), 0);

    let quantiles: Vec<(f64, f64)> = summary
        .quantiles_at(0)
        .iter()
        .map(|&(q, v)| (f64::from_bits(q), f64::from_bits(v)))
        .collect();
    assert_eq!(quantiles, vec![(0.25, 10.0), (0.50, 12.0), (0.75, 33.0)]);
    assert_eq!(summary.count(), 5);
    assert_eq!(sum_value(summary.sum_terms()), 112.0);

    let mut s2 = SummaryBuilder::new("foo", 10_000)
        .quantile(0.25f64.to_bits())
        .quantile(0.5f64.to_bits())
        .quantile(0.75f64.to_bits())
        .finish()
        .unwrap();
    s2.observe_at(7.0f64.to_bits(), 0);
    s2.observe_at(12.0f64.to_bits(), 0);
    s2.observe_at(50.0f64.to_bits(), 0);
    s2.observe_at(10.0f64.to_bits(), 0);
    s2.observe_at(33.0f64.to_bits(), 0);
    assert_eq!(
        render_one(Metric::Summary(s2)).join("\n"),
        r#"foo{quantile="0.25"} 10
foo{quantile="0.5"} 12
foo{quantile="0.75"} 33
foo_sum 112
foo_count 5"#
    );
}

#[test]
fn summary_window_evicts_samples_but_not_totals() {
    let mut summary = SummaryBuilder::new("win", 10)
        .quantile(0.5f64.to_bits())
        .finish()
        .unwrap();
    summary.observe_at(100.0f64.to_bits(), 0);
    summary.observe_at(4.0f64.to_bits(), 20);
    // The first sample is older than the window and must not shape the
    // quantiles; the all-time count and sum keep it regardless.
    let quantiles = summary.quantiles_at(20);
    assert_eq!(quantiles.len(), 1);
    assert_eq!(f64::from_bits(quantiles[0].1), 4.0);
    assert_eq!(summary.count(), 2);
    assert_eq!(sum_value(summary.sum_terms()), 104.0);
}

#[test]
fn summary_quantile_one_takes_the_maximum() {
    let mut summary = SummaryBuilder::new("edge", 1_000)
        .quantile(0.0f64.to_bits())
        .quantile(1.0f64.to_bits())
        .finish()
        .unwrap();
    summary.observe_at(5.0f64.to_bits(), 0);
    summary.observe_at(9.0f64.to_bits(), 0);
    summary.observe_at(7.0f64.to_bits(), 0);
    let quantiles = summary.quantiles_at(0);
    assert_eq!(f64::from_bits(quantiles[0].1), 5.0);
    assert_eq!(f64::from_bits(quantiles[1].1), 9.0);
}

#[test]
fn counter_integer_path_handles_large_and_spilled_amounts() {
    // A large whole-valued double still takes the exact integer path.
    let mut counter = CounterBuilder::new("big_total").finish().unwrap();
    counter.add(((1u64 << 60) as f64).to_bits()).unwrap();
    let terms = counter.value_terms();
    assert_eq!(terms.len(), 1);
    assert!(matches!(terms[0], Term::Whole(n) if n == 1u64 << 60));

    // When the integer accumulator is full, further whole units are recorded
    // exactly instead of wrapping.
    let mut counter = CounterBuilder::new("full_total").finish().unwrap();
    counter.add_u64(u64::MAX);
    counter.add_u64(2);
    let terms = counter.value_terms();
    assert_eq!(terms.len(), 3);
    assert!(matches!(terms[0], Term::Whole(u64::MAX)));
    assert!(matches!(terms[1], Term::Bits(b) if f64::from_bits(b) == 1.0));
    assert!(matches!(terms[2], Term::Bits(b) if f64::from_bits(b) == 1.0));
}

#[test]
fn duplicate_quantile_requests_collapse() {
    let mut summary = SummaryBuilder::new("dq", 1_000)
        .quantile(0.5f64.to_bits())
        .quantile(0.5f64.to_bits())
        .quantile(0.25f64.to_bits())
        .finish()
        .unwrap();
    // The built list is sorted ascending and holds each requested value
    // once.
    assert_eq!(summary.quantiles.len(), 2);
    assert_eq!(f64::from_bits(summary.quantiles[0]), 0.25);
    assert_eq!(f64::from_bits(summary.quantiles[1]), 0.5);

    summary.observe_at(8.0f64.to_bits(), 0);
    let quantiles = summary.quantiles_at(0);
    assert_eq!(quantiles.len(), 2);
    assert_eq!(f64::from_bits(quantiles[0].0), 0.25);
    assert_eq!(f64::from_bits(quantiles[1].0), 0.5);

    let lines = render_one(Metric::Summary(summary));
    assert_eq!(
        lines.join("\n"),
        r#"dq{quantile="0.25"} 8
dq{quantile="0.5"} 8
dq_sum 8
dq_count 1"#
    );
}
