//! End-to-end gathering and text exposition.
use prometrics::metric::{Metric, MetricFamilies};
use prometrics::metrics::counter::CounterBuilder;
use prometrics::metrics::gauge::GaugeBuilder;
use prometrics::registry::{Gatherer, Registry};
use prometrics::render::{Piece, Term};

fn slot_value(terms: &Vec<Term>) -> f64 {
    let mut acc = 0.0f64;
    for t in terms.iter() {
        match t {
            Term::Whole(n) => acc += *n as f64,
            Term::Bits(x) => acc += f64::from_bits(*x),
        }
    }
    acc
}

fn num_text(v: f64) -> String {
    if v.is_nan() {
        "Nan".to_string()
    } else if v.is_finite() {
        format!("{}", v)
    } else if v.is_sign_positive() {
        "+Inf".to_string()
    } else {
        "-Inf".to_string()
    }
}

fn render(f: &MetricFamilies, now: i64) -> String {
    let pieces = f.render_pieces(now);
    let mut texts: Vec<String> = Vec::new();
    for p in pieces.iter() {
        if let Piece::Slot(terms) = p {
            texts.push(num_text(slot_value(terms)));
        }
    }
    f.to_text(now, &texts)
}

#[test]
fn lib_it_works() {
    let mut registry = Registry::new();
    let mut gatherer = Gatherer::new();
    let _count_id = registry.register();
    let _gauge_id = registry.register();

    let mut counter = CounterBuilder::new("count").finish().unwrap();
    let gauge = {
        let mut g = GaugeBuilder::new("gauge").label("foo", "bar").finish().unwrap();
        g.set(12.3f64.to_bits());
        g
    };
    counter.increment();

    let polls = vec![
        Some(vec![Metric::Counter(counter)]),
        Some(vec![Metric::Gauge(gauge)]),
    ];
    let metrics = gatherer.gather(&mut registry, polls);
    assert_eq!(
        format!("\n{}", render(&metrics, 0)),
        r#"
# TYPE count counter
count 1
# TYPE gauge gauge
gauge{foo="bar"} 12.3
"#
    );
}

#[test]
fn families_sorted_and_grouped() {
    let mut registry = Registry::new();
    let mut gatherer = Gatherer::new();
    for _ in 0..3 {
        registry.register();
    }
    let mut c1 = CounterBuilder::new("zeta").finish().unwrap();
    c1.add_u64(2);
    let mut c2 = CounterBuilder::new("alpha").finish().unwrap();
    c2.add_u64(5);
    let mut c3 = CounterBuilder::new("alpha").label("x", "1").finish().unwrap();
    c3.add_u64(7);
    let polls = vec![
        Some(vec![Metric::Counter(c1)]),
        Some(vec![Metric::Counter(c2)]),
        Some(vec![Metric::Counter(c3)]),
    ];
    let metrics = gatherer.gather(&mut registry, polls);
    let fams = metrics.as_vec();
    assert_eq!(fams.len(), 2);
    assert_eq!(fams[0].name().name(), "alpha");
    assert_eq!(fams[0].metrics().len(), 2);
    assert_eq!(fams[1].name().name(), "zeta");
    let text = render(&metrics, 0);
    let lines: Vec<&str> = text.lines().collect();
    assert_eq!(
        lines,
        vec![
            "# TYPE alpha counter",
            "alpha 5",
            "alpha{x=\"1\"} 7",
            "# TYPE zeta counter",
            "zeta 2",
        ]
    );
}

#[test]
fn gatherer_prunes_dead_collectors() {
    let mut registry = Registry::new();
    let mut gatherer = Gatherer::new();
    let live_id = registry.register();
    let dead_id = registry.register();

    let mut c = CounterBuilder::new("kept").finish().unwrap();
    c.increment();
    let d = CounterBuilder::new("dropped").finish().unwrap();

    // First gather: both collectors answer; the one about to die still
    // reports.
    let polls = vec![
        Some(vec![Metric::Counter(c)]),
        Some(vec![Metric::Counter(d)]),
    ];
    let first = gatherer.gather(&mut registry, polls);
    assert_eq!(first.as_vec().len(), 2);
    assert_eq!(gatherer.live, vec![live_id, dead_id]);

    // The backing metric of the second collector is gone: its poll answers
    // None, and it is pruned for good.
    let mut c2 = CounterBuilder::new("kept").finish().unwrap();
    c2.increment();
    let polls = vec![Some(vec![Metric::Counter(c2)]), None];
    let second = gatherer.gather(&mut registry, polls);
    assert_eq!(second.as_vec().len(), 1);
    assert_eq!(second.as_vec()[0].name().name(), "kept");
    assert_eq!(gatherer.live, vec![live_id]);

    // Every later gather polls only the survivor.
    let mut c3 = CounterBuilder::new("kept").finish().unwrap();
    c3.increment();
    let polls = vec![Some(vec![Metric::Counter(c3)])];
    let third = gatherer.gather(&mut registry, polls);
    assert_eq!(third.as_vec().len(), 1);
    assert_eq!(third.as_vec()[0].name().name(), "kept");
}

#[test]
fn help_renders_escaped() {
    let mut registry = Registry::new();
    let mut gatherer = Gatherer::new();
    registry.register();
    let mut c = CounterBuilder::new("doc")
        .help("line one\nback\\slash")
        .finish()
        .unwrap();
    c.increment();
    let polls = vec![Some(vec![Metric::Counter(c)])];
    let metrics = gatherer.gather(&mut registry, polls);
    let text = render(&metrics, 0);
    let lines: Vec<&str> = text.lines().collect();
    assert_eq!(lines[0], "# HELP doc line one\\nback\\\\slash");
    assert_eq!(lines[1], "# TYPE doc counter");
    assert_eq!(lines[2], "doc 1");
}

#[test]
fn label_values_render_escaped() {
    let mut registry = Registry::new();
    let mut gatherer = Gatherer::new();
    registry.register();
    let g = {
        let mut g = GaugeBuilder::new("esc")
            .label("v", "a\\b\"c\nd")
            .finish()
            .unwrap();
        g.set(1.5f64.to_bits());
        g
    };
    let polls = vec![Some(vec![prometrics::metric::Metric::Gauge(g)])];
    let metrics = gatherer.gather(&mut registry, polls);
    let text = render(&metrics, 0);
    assert!(text.contains("esc{v=\"a\\\\b\\\"c\\nd\"} 1.5"));
}
