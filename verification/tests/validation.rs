//! Validation, labels, timestamps and the small rendering pieces.
use prometrics::label::{Label, Labels};
use prometrics::metric::{Metric, MetricFamilies, MetricName};
use prometrics::metrics::gauge::GaugeBuilder;
use prometrics::metrics::histogram::HistogramBuilder;
use prometrics::metrics::summary::SummaryBuilder;
use prometrics::quantile::Quantile;
use prometrics::registry::{Gatherer, Registry};
use prometrics::render::{i64_to_dec, u64_to_dec, Piece, Term};
use prometrics::timestamp::Timestamp;
use prometrics::ErrorKind;

fn slot_value(terms: &Vec<Term>) -> f64 {
    let mut acc = 0.0f64;
    for t in terms.iter() {
        match t {
            Term::Whole(n) => acc += *n as f64,
            Term::Bits(x) => acc += f64::from_bits(*x),
        }
    }
    acc
}

fn num_text(v: f64) -> String {
    if v.is_nan() {
        "Nan".to_string()
    } else if v.is_finite() {
        format!("{}", v)
    } else if v.is_sign_positive() {
        "+Inf".to_string()
    } else {
        "-Inf".to_string()
    }
}

fn render(f: &MetricFamilies, now: i64) -> String {
    let pieces = f.render_pieces(now);
    let mut texts: Vec<String> = Vec::new();
    for p in pieces.iter() {
        if let Piece::Slot(terms) = p {
            texts.push(num_text(slot_value(terms)));
        }
    }
    f.to_text(now, &texts)
}

#[test]
fn label_names_are_validated() {
    let label = Label::new("foo", "bar").unwrap();
    assert_eq!(label.name(), "foo");
    assert_eq!(label.value(), "bar");
    assert_eq!(Label::new("__foo", "bar").unwrap_err().kind(), ErrorKind::InvalidInput);
    assert_eq!(Label::new("fo-o", "bar").unwrap_err().kind(), ErrorKind::InvalidInput);
    assert_eq!(Label::new("", "bar").unwrap_err().kind(), ErrorKind::InvalidInput);
    assert_eq!(Label::new("0ab", "bar").unwrap_err().kind(), ErrorKind::InvalidInput);
    assert!(Label::new("_ok_9", "x").is_ok());
}

#[test]
fn metric_names_are_validated() {
    assert!(MetricName::new(Some("ns"), Some("sub"), "a:b_c9").is_ok());
    assert_eq!(
        MetricName::new(None, None, "9bad").unwrap_err().kind(),
        ErrorKind::InvalidInput
    );
    assert_eq!(
        MetricName::new(Some("bad-ns"), None, "ok").unwrap_err().kind(),
        ErrorKind::InvalidInput
    );
    assert_eq!(
        MetricName::new(None, None, "").unwrap_err().kind(),
        ErrorKind::InvalidInput
    );
}

#[test]
fn labels_keep_sorted_unique_by_name() {
    let mut labels = Labels::new();
    labels.insert("zeta", "1", None).unwrap();
    labels.insert("alpha", "2", None).unwrap();
    labels.insert("zeta", "3", None).unwrap();
    assert_eq!(labels.len(), 2);
    assert_eq!(labels.get("zeta").unwrap().value(), "3");
    assert_eq!(labels.get("alpha").unwrap().value(), "2");
    assert!(labels.get("missing").is_none());
    let mut it = labels.iter();
    let first = it.next().unwrap();
    let second = it.next().unwrap();
    assert!(it.next().is_none());
    assert_eq!(first.name(), "alpha");
    assert_eq!(second.name(), "zeta");
    labels.remove("alpha");
    assert_eq!(labels.len(), 1);
    labels.clear();
    assert!(labels.is_empty());
}

#[test]
fn reserved_label_names_are_rejected() {
    let mut histogram = HistogramBuilder::new("h").finish().unwrap();
    assert_eq!(
        histogram.labels_insert("le", "1").unwrap_err().kind(),
        ErrorKind::InvalidInput
    );
    assert!(histogram.labels_insert("ok", "1").is_ok());

    let mut summary = SummaryBuilder::new("s", 1_000).finish().unwrap();
    assert_eq!(
        summary.labels_insert("quantile", "1").unwrap_err().kind(),
        ErrorKind::InvalidInput
    );
    assert!(summary.labels_insert("ok", "1").is_ok());

    assert_eq!(
        HistogramBuilder::new("h").label("le", "x").finish().unwrap_err().kind(),
        ErrorKind::InvalidInput
    );
    assert_eq!(
        SummaryBuilder::new("s", 1_000).label("quantile", "x").finish().unwrap_err().kind(),
        ErrorKind::InvalidInput
    );
}

#[test]
fn label_round_trip_restores_rendered_output() {
    fn line_of(now_gauge: prometrics::metrics::gauge::Gauge) -> String {
        let mut registry = Registry::new();
        let mut gatherer = Gatherer::new();
        registry.register();
        let metrics = gatherer.gather(&mut registry, vec![Some(vec![Metric::Gauge(now_gauge)])]);
        render(&metrics, 0)
    }
    let make = || {
        let mut g = GaugeBuilder::new("rt").label("keep", "v").finish().unwrap();
        g.set(3.5f64.to_bits());
        g
    };
    let before = line_of(make());
    let mut g = make();
    g.labels_insert("extra", "tmp").unwrap();
    g.labels_remove("extra");
    let after = line_of(g);
    assert_eq!(before, after);
}

#[test]
fn quantiles_must_lie_in_the_unit_interval() {
    assert!(Quantile::new(0.0f64.to_bits()).is_ok());
    assert!(Quantile::new(1.0f64.to_bits()).is_ok());
    assert_eq!(Quantile::new(0.5f64.to_bits()).unwrap().as_bits(), 0.5f64.to_bits());
    assert_eq!(
        Quantile::new(1.5f64.to_bits()).unwrap_err().kind(),
        ErrorKind::InvalidInput
    );
    assert_eq!(
        Quantile::new((-0.25f64).to_bits()).unwrap_err().kind(),
        ErrorKind::InvalidInput
    );
    assert_eq!(
        Quantile::new(f64::NAN.to_bits()).unwrap_err().kind(),
        ErrorKind::InvalidInput
    );
    assert_eq!(
        SummaryBuilder::new("s", 1_000)
            .quantile(2.0f64.to_bits())
            .finish()
            .unwrap_err()
            .kind(),
        ErrorKind::InvalidInput
    );
}

#[test]
fn histograms_reject_nan_bounds() {
    assert_eq!(
        HistogramBuilder::new("h")
            .bucket(f64::NAN.to_bits())
            .finish()
            .unwrap_err()
            .kind(),
        ErrorKind::InvalidInput
    );
}

#[test]
fn decimal_rendering_is_exact() {
    assert_eq!(u64_to_dec(0), "0");
    assert_eq!(u64_to_dec(7), "7");
    assert_eq!(u64_to_dec(1234567890123456789), "1234567890123456789");
    assert_eq!(u64_to_dec(u64::MAX), "18446744073709551615");
    assert_eq!(i64_to_dec(-5), "-5");
    assert_eq!(i64_to_dec(0), "0");
    assert_eq!(i64_to_dec(i64::MIN), "-9223372036854775808");
    assert_eq!(i64_to_dec(i64::MAX), "9223372036854775807");
}

#[test]
fn timestamps_render_after_the_value() {
    let mut registry = Registry::new();
    let mut gatherer = Gatherer::new();
    registry.register();
    let mut g = GaugeBuilder::new("stamped").finish().unwrap();
    g.set(2.0f64.to_bits());
    g.timestamp.set(1234567);
    let metrics = gatherer.gather(&mut registry, vec![Some(vec![Metric::Gauge(g)])]);
    let text = render(&metrics, 0);
    assert!(text.contains("stamped 2 1234567\n"));
}

#[test]
fn timestamp_cell_works() {
    let mut t = Timestamp::new();
    assert!(t.get().is_none());
    t.set(42);
    assert_eq!(t.get(), Some(42));
    t.set(-42);
    assert_eq!(t.get(), Some(-42));
    t.clear();
    assert!(t.get().is_none());
    t.set_time(false, 12, 7_000_000);
    assert_eq!(t.get(), Some(12_007));
    t.set_time(true, 1, 0);
    assert_eq!(t.get(), Some(-1_000));
    t.set_now();
    assert!(t.get().is_some());
}

#[test]
fn observing_infinity_lands_in_the_last_bucket() {
    let mut histogram = HistogramBuilder::new("inf")
        .bucket(1.0f64.to_bits())
        .finish()
        .unwrap();
    histogram.observe(f64::INFINITY.to_bits());
    histogram.observe((-f64::INFINITY).to_bits());
    let cums = histogram.cumulative_counts();
    assert_eq!(cums[0].cumulative_count(), 1);
    assert_eq!(cums[1].cumulative_count(), 2);
    assert_eq!(histogram.count(), 2);
}

#[test]
fn metric_builder_seeds_the_kind_builders() {
    let builder = prometrics::metrics::builder::MetricBuilder::new()
        .namespace("ns")
        .label("shared", "yes");
    let counter = builder.counter("c_total").finish().unwrap();
    assert_eq!(prometrics::metric::full_name(counter.metric_name()), "ns_c_total");
    assert_eq!(counter.labels().get("shared").unwrap().value(), "yes");
    let gauge = builder.gauge("g").finish().unwrap();
    assert_eq!(prometrics::metric::full_name(gauge.metric_name()), "ns_g");
    let histogram = builder.histogram("h").finish().unwrap();
    assert_eq!(histogram.buckets().len(), 1);
    let summary = builder.summary("s", 500).finish().unwrap();
    assert_eq!(summary.window_millis, 500);
}

#[test]
fn error_kinds_are_distinct() {
    assert_eq!(prometrics::Error::invalid_input().kind(), ErrorKind::InvalidInput);
    assert_eq!(prometrics::Error::other().kind(), ErrorKind::Other);
    assert_ne!(ErrorKind::InvalidInput, ErrorKind::Other);
}
