//! Metric names, kinds, and the grouping of gathered metrics into families.
use vstd::prelude::*;

use crate::error::{Error, ErrorKind};
use crate::order::{lemma_lex_connex, lemma_lex_trans, lex_lt, str_eq, str_lt};

verus! {

/// Whether `c` may open a metric name part.
pub open spec fn metric_start_char(c: char) -> bool {
    ('a' <= c && c <= 'z') || ('A' <= c && c <= 'Z') || c == '_' || c == ':'
}

/// Whether `c` may continue a metric name part.
pub open spec fn metric_char(c: char) -> bool {
    metric_start_char(c) || ('0' <= c && c <= '9')
}

/// A valid metric name part: non-empty, of ASCII letters, digits,
/// underscores and colons, not starting with a digit.
pub open spec fn valid_metric_name(s: Seq<char>) -> bool {
    &&& s.len() > 0
    &&& metric_start_char(s[0])
    &&& forall|i: int| 1 <= i < s.len() ==> metric_char(#[trigger] s[i])
}

/// Checks `name` against the metric-name rules.
pub fn validate_metric_name(name: &str) -> (r: Result<(), Error>)
    ensures
        r is Ok <==> valid_metric_name(name@),
        r is Err ==> r->Err_0.kind == ErrorKind::InvalidInput,
{
    let len = name.unicode_len();
    if len == 0 {
        return Err(Error::invalid_input());
    }
    let c0 = name.get_char(0);
    if !(('a' <= c0 && c0 <= 'z') || ('A' <= c0 && c0 <= 'Z') || c0 == '_' || c0 == ':') {
        return Err(Error::invalid_input());
    }
    let mut i: usize = 1;
    while i < len
        invariant
            1 <= i <= len,
            len == name@.len(),
            metric_start_char(name@[0]),
            forall|k: int| 1 <= k < i ==> metric_char(#[trigger] name@[k]),
        decreases len - i,
    {
        let c = name.get_char(i);
        if !(('a' <= c && c <= 'z') || ('A' <= c && c <= 'Z') || c == '_' || c == ':' || ('0' <= c
            && c <= '9')) {
            return Err(Error::invalid_input());
        }
        i = i + 1;
    }
    Ok(())
}

/// A metric name: `{namespace}_{subsystem}_{name}`, of which only the last
/// part is mandatory.
#[derive(Debug, Clone)]
pub struct MetricName {
    /// The optional namespace part.
    pub namespace: Option<String>,
    /// The optional subsystem part.
    pub subsystem: Option<String>,
    /// The base name.
    pub name: String,
}

/// The view of an optional string part.
pub open spec fn opt_view(o: Option<String>) -> Option<Seq<char>> {
    match o {
        Option::Some(s) => Option::Some(s@),
        Option::None => Option::None,
    }
}

/// Whether every present part of the name is valid.
pub open spec fn metric_name_wf(m: MetricName) -> bool {
    &&& (m.namespace is Some ==> valid_metric_name(m.namespace->0@))
    &&& (m.subsystem is Some ==> valid_metric_name(m.subsystem->0@))
    &&& valid_metric_name(m.name@)
}

/// The characters of the full, joined metric name.
pub open spec fn full_name_view(m: MetricName) -> Seq<char> {
    (match m.namespace {
        Option::Some(ns) => ns@ + seq!['_'],
        Option::None => Seq::empty(),
    }) + (match m.subsystem {
        Option::Some(ss) => ss@ + seq!['_'],
        Option::None => Seq::empty(),
    }) + m.name@
}

impl MetricName {
    /// Makes a metric name, validating every given part.
    pub fn new(namespace: Option<&str>, subsystem: Option<&str>, name: &str) -> (r: Result<
        Self,
        Error,
    >)
        ensures
            match r {
                Result::Ok(m) => {
                    &&& metric_name_wf(m)
                    &&& opt_view(m.namespace) == match namespace {
                        Option::Some(s) => Option::Some(s@),
                        Option::None => Option::<Seq<char>>::None,
                    }
                    &&& opt_view(m.subsystem) == match subsystem {
                        Option::Some(s) => Option::Some(s@),
                        Option::None => Option::<Seq<char>>::None,
                    }
                    &&& m.name@ == name@
                },
                Result::Err(e) => {
                    &&& e.kind == ErrorKind::InvalidInput
                    &&& !((match namespace {
                        Option::Some(s) => valid_metric_name(s@),
                        Option::None => true,
                    }) && (match subsystem {
                        Option::Some(s) => valid_metric_name(s@),
                        Option::None => true,
                    }) && valid_metric_name(name@))
                },
            },
    {
        let ns: Option<String> = match namespace {
            Some(s) => {
                validate_metric_name(s)?;
                Some(s.to_owned())
            },
            None => None,
        };
        let ss: Option<String> = match subsystem {
            Some(s) => {
                validate_metric_name(s)?;
                Some(s.to_owned())
            },
            None => None,
        };
        validate_metric_name(name)?;
        Ok(MetricName { namespace: ns, subsystem: ss, name: name.to_owned() })
    }

    /// Returns the namespace part of this.
    pub fn namespace(&self) -> (r: Option<&str>)
        ensures
            match r {
                Option::Some(s) => self.namespace is Some && s@ == self.namespace->0@,
                Option::None => self.namespace is None,
            },
    {
        match &self.namespace {
            Some(s) => Some(s.as_str()),
            None => None,
        }
    }

    /// Returns the subsystem part of this.
    pub fn subsystem(&self) -> (r: Option<&str>)
        ensures
            match r {
                Option::Some(s) => self.subsystem is Some && s@ == self.subsystem->0@,
                Option::None => self.subsystem is None,
            },
    {
        match &self.subsystem {
            Some(s) => Some(s.as_str()),
            None => None,
        }
    }

    /// Returns the name part of this.
    pub fn name(&self) -> (r: &str)
        ensures
            r@ == self.name@,
    {
        self.name.as_str()
    }
}

/// The order of optional name parts: an absent part sorts first.
pub open spec fn opt_lt(a: Option<Seq<char>>, b: Option<Seq<char>>) -> bool {
    match (a, b) {
        (Option::None, Option::None) => false,
        (Option::None, Option::Some(_)) => true,
        (Option::Some(_), Option::None) => false,
        (Option::Some(x), Option::Some(y)) => lex_lt(x, y),
    }
}

/// The view a metric name sorts and groups by.
pub open spec fn name_key(m: MetricName) -> (Option<Seq<char>>, Option<Seq<char>>, Seq<char>) {
    (opt_view(m.namespace), opt_view(m.subsystem), m.name@)
}

/// The strict order on metric names: by namespace, then subsystem, then name.
pub open spec fn name_lt(a: MetricName, b: MetricName) -> bool {
    ||| opt_lt(name_key(a).0, name_key(b).0)
    ||| (name_key(a).0 == name_key(b).0 && opt_lt(name_key(a).1, name_key(b).1))
    ||| (name_key(a).0 == name_key(b).0 && name_key(a).1 == name_key(b).1 && lex_lt(
        name_key(a).2,
        name_key(b).2,
    ))
}

/// Compares two optional parts.
fn opt_str_lt(a: &Option<String>, b: &Option<String>) -> (r: bool)
    ensures
        r == opt_lt(opt_view(*a), opt_view(*b)),
{
    match (a, b) {
        (None, None) => false,
        (None, Some(_)) => true,
        (Some(_), None) => false,
        (Some(x), Some(y)) => str_lt(x.as_str(), y.as_str()),
    }
}

/// Whether two optional parts hold the same characters.
fn opt_str_eq(a: &Option<String>, b: &Option<String>) -> (r: bool)
    ensures
        r == (opt_view(*a) == opt_view(*b)),
{
    match (a, b) {
        (None, None) => true,
        (None, Some(_)) => false,
        (Some(_), None) => false,
        (Some(x), Some(y)) => str_eq(x.as_str(), y.as_str()),
    }
}

/// Compares two metric names in the grouping order.
pub fn metric_name_lt(a: &MetricName, b: &MetricName) -> (r: bool)
    ensures
        r == name_lt(*a, *b),
{
    if opt_str_lt(&a.namespace, &b.namespace) {
        return true;
    }
    if !opt_str_eq(&a.namespace, &b.namespace) {
        return false;
    }
    if opt_str_lt(&a.subsystem, &b.subsystem) {
        return true;
    }
    if !opt_str_eq(&a.subsystem, &b.subsystem) {
        return false;
    }
    str_lt(a.name.as_str(), b.name.as_str())
}

/// Whether two metric names are the same name.
pub fn metric_name_eq(a: &MetricName, b: &MetricName) -> (r: bool)
    ensures
        r == (name_key(*a) == name_key(*b)),
{
    let r = opt_str_eq(&a.namespace, &b.namespace) && opt_str_eq(&a.subsystem, &b.subsystem)
        && str_eq(a.name.as_str(), b.name.as_str());
    proof {
        if opt_view(a.namespace) == opt_view(b.namespace) && opt_view(a.subsystem) == opt_view(
            b.subsystem,
        ) && a.name@ == b.name@ {
            assert(name_key(*a) == name_key(*b));
        }
        if name_key(*a) == name_key(*b) {
            assert(opt_view(a.namespace) == opt_view(b.namespace));
            assert(opt_view(a.subsystem) == opt_view(b.subsystem));
            assert(a.name@ == b.name@);
        }
    }
    r
}

/// Either `a` sorts below `b`, or `b` below `a`, or they are the same name;
/// and never both ways.
pub proof fn lemma_name_connex(a: MetricName, b: MetricName)
    ensures
        name_lt(a, b) || name_lt(b, a) || name_key(a) == name_key(b),
        name_lt(a, b) ==> !name_lt(b, a),
{
    lemma_opt_connex(opt_view(a.namespace), opt_view(b.namespace));
    lemma_opt_connex(opt_view(a.subsystem), opt_view(b.subsystem));
    lemma_lex_connex(a.name@, b.name@);
    if !name_lt(a, b) && !name_lt(b, a) {
        assert(name_key(a) == name_key(b));
    }
}

/// The name order is transitive.
pub proof fn lemma_name_trans(a: MetricName, b: MetricName, c: MetricName)
    requires
        name_lt(a, b),
        name_lt(b, c),
    ensures
        name_lt(a, c),
{
    lemma_opt_trans(opt_view(a.namespace), opt_view(b.namespace), opt_view(c.namespace));
    lemma_opt_trans(opt_view(a.subsystem), opt_view(b.subsystem), opt_view(c.subsystem));
    if lex_lt(a.name@, b.name@) && lex_lt(b.name@, c.name@) {
        lemma_lex_trans(a.name@, b.name@, c.name@);
    }
}

/// Trichotomy for optional parts.
proof fn lemma_opt_connex(a: Option<Seq<char>>, b: Option<Seq<char>>)
    ensures
        opt_lt(a, b) || opt_lt(b, a) || a == b,
        opt_lt(a, b) ==> !opt_lt(b, a),
{
    if a is Some && b is Some {
        lemma_lex_connex(a->0, b->0);
    }
}

/// Transitivity for optional parts.
proof fn lemma_opt_trans(a: Option<Seq<char>>, b: Option<Seq<char>>, c: Option<Seq<char>>)
    ensures
        opt_lt(a, b) && opt_lt(b, c) ==> opt_lt(a, c),
{
    if a is Some && b is Some && c is Some {
        if lex_lt(a->0, b->0) && lex_lt(b->0, c->0) {
            lemma_lex_trans(a->0, b->0, c->0);
        }
    }
}

/// Metric kind.
#[derive(Debug, Clone, Copy, PartialEq, Eq, Structural)]
pub enum MetricKind {
    /// A monotone cumulative metric.
    Counter,
    /// A freely adjustable metric.
    Gauge,
    /// A sliding-window quantile metric.
    Summary,
    /// A bucketed distribution metric.
    Histogram,
}

/// The position of a kind in the grouping order.
pub open spec fn kind_rank(k: MetricKind) -> int {
    match k {
        MetricKind::Counter => 0,
        MetricKind::Gauge => 1,
        MetricKind::Summary => 2,
        MetricKind::Histogram => 3,
    }
}

/// Returns the position of a kind in the grouping order.
pub fn kind_rank_of(k: MetricKind) -> (r: u8)
    ensures
        r == kind_rank(k),
{
    match k {
        MetricKind::Counter => 0,
        MetricKind::Gauge => 1,
        MetricKind::Summary => 2,
        MetricKind::Histogram => 3,
    }
}

/// The word a kind renders as in the `# TYPE` line.
pub fn kind_word(k: MetricKind) -> (r: &'static str)
    ensures
        k == MetricKind::Counter ==> r@ == "counter"@,
        k == MetricKind::Gauge ==> r@ == "gauge"@,
        k == MetricKind::Summary ==> r@ == "summary"@,
        k == MetricKind::Histogram ==> r@ == "histogram"@,
{
    match k {
        MetricKind::Counter => "counter",
        MetricKind::Gauge => "gauge",
        MetricKind::Summary => "summary",
        MetricKind::Histogram => "histogram",
    }
}


use crate::metrics::counter::Counter;
use crate::metrics::gauge::Gauge;
use crate::metrics::histogram::Histogram;
use crate::metrics::observed_counter::ObservedCounter;
use crate::metrics::summary::Summary;

/// A gathered metric of any kind.
#[derive(Debug, Clone)]
pub enum Metric {
    /// A counter.
    Counter(Counter),
    /// A gauge.
    Gauge(Gauge),
    /// A summary.
    Summary(Summary),
    /// A histogram.
    Histogram(Histogram),
    /// An externally observed counter; it groups and renders as a counter.
    ObservedCounter(ObservedCounter),
}

/// The name of a metric.
pub open spec fn metric_name_of(m: Metric) -> MetricName {
    match m {
        Metric::Counter(c) => c.name,
        Metric::Gauge(g) => g.name,
        Metric::Summary(s) => s.name,
        Metric::Histogram(h) => h.name,
        Metric::ObservedCounter(c) => c.name,
    }
}

/// The kind of a metric; an observed counter counts as a counter.
pub open spec fn metric_kind_of(m: Metric) -> MetricKind {
    match m {
        Metric::Counter(_) => MetricKind::Counter,
        Metric::Gauge(_) => MetricKind::Gauge,
        Metric::Summary(_) => MetricKind::Summary,
        Metric::Histogram(_) => MetricKind::Histogram,
        Metric::ObservedCounter(_) => MetricKind::Counter,
    }
}

/// The help text of a metric.
pub open spec fn metric_help_of(m: Metric) -> Option<String> {
    match m {
        Metric::Counter(c) => c.help,
        Metric::Gauge(g) => g.help,
        Metric::Summary(s) => s.help,
        Metric::Histogram(h) => h.help,
        Metric::ObservedCounter(c) => c.help,
    }
}

/// The internal validity a gathered metric carries.
pub open spec fn metric_wf(m: Metric) -> bool {
    match m {
        Metric::Histogram(h) => crate::metrics::histogram::hist_wf(h),
        Metric::Summary(s) => crate::metrics::summary::summary_wf(s),
        _ => true,
    }
}

impl Metric {
    /// Returns the name of this metric.
    pub fn name(&self) -> (r: &MetricName)
        ensures
            *r == metric_name_of(*self),
    {
        match self {
            Metric::Counter(m) => &m.name,
            Metric::Gauge(m) => &m.name,
            Metric::Summary(m) => &m.name,
            Metric::Histogram(m) => &m.name,
            Metric::ObservedCounter(m) => &m.name,
        }
    }

    /// Returns the kind of this metric.
    pub fn kind(&self) -> (r: MetricKind)
        ensures
            r == metric_kind_of(*self),
    {
        match self {
            Metric::Counter(_) => MetricKind::Counter,
            Metric::Gauge(_) => MetricKind::Gauge,
            Metric::Summary(_) => MetricKind::Summary,
            Metric::Histogram(_) => MetricKind::Histogram,
            Metric::ObservedCounter(_) => MetricKind::Counter,
        }
    }
}

/// The grouping order on gathered metrics: by name, then kind.
pub open spec fn metric_le(a: Metric, b: Metric) -> bool {
    ||| name_lt(metric_name_of(a), metric_name_of(b))
    ||| (name_key(metric_name_of(a)) == name_key(metric_name_of(b)) && kind_rank(
        metric_kind_of(a),
    ) <= kind_rank(metric_kind_of(b)))
}

/// Whether two metrics belong to the same family: same name and kind.
pub open spec fn same_family(a: Metric, b: Metric) -> bool {
    name_key(metric_name_of(a)) == name_key(metric_name_of(b)) && metric_kind_of(a)
        == metric_kind_of(b)
}

/// Whether the metrics are sorted in the grouping order.
pub open spec fn metrics_sorted(s: Seq<Metric>) -> bool {
    forall|i: int, j: int| 0 <= i < j < s.len() ==> metric_le(#[trigger] s[i], #[trigger] s[j])
}

/// The grouping order is total.
pub proof fn lemma_metric_le_connex(a: Metric, b: Metric)
    ensures
        metric_le(a, b) || metric_le(b, a),
{
    lemma_name_connex(metric_name_of(a), metric_name_of(b));
}

/// The grouping order is transitive.
pub proof fn lemma_metric_le_trans(a: Metric, b: Metric, c: Metric)
    requires
        metric_le(a, b),
        metric_le(b, c),
    ensures
        metric_le(a, c),
{
    if name_lt(metric_name_of(a), metric_name_of(b)) && name_lt(
        metric_name_of(b),
        metric_name_of(c),
    ) {
        lemma_name_trans(metric_name_of(a), metric_name_of(b), metric_name_of(c));
    }
}

/// Compares two metrics in the grouping order.
pub fn metric_le_exec(a: &Metric, b: &Metric) -> (r: bool)
    ensures
        r == metric_le(*a, *b),
{
    if metric_name_lt(a.name(), b.name()) {
        return true;
    }
    if !metric_name_eq(a.name(), b.name()) {
        return false;
    }
    kind_rank_of(a.kind()) <= kind_rank_of(b.kind())
}

/// Whether two metrics belong to the same family.
pub fn same_family_exec(a: &Metric, b: &Metric) -> (r: bool)
    ensures
        r == same_family(*a, *b),
{
    metric_name_eq(a.name(), b.name()) && kind_rank_of(a.kind()) == kind_rank_of(b.kind())
}

/// The partition of a sorted metric sequence into runs of the same family,
/// folded left to right: each metric joins the last run when it matches its
/// last member, else opens a new run.
pub open spec fn partition(s: Seq<Metric>) -> Seq<Seq<Metric>>
    decreases s.len(),
{
    if s.len() == 0 {
        Seq::empty()
    } else {
        let rest = partition(s.drop_last());
        if rest.len() > 0 && rest.last().len() > 0 && same_family(rest.last().last(), s.last()) {
            rest.update(rest.len() - 1, rest.last().push(s.last()))
        } else {
            rest.push(seq![s.last()])
        }
    }
}

/// A family of metrics sharing one name and kind.
#[derive(Debug)]
pub struct MetricFamily {
    /// The shared metric name.
    pub name: MetricName,
    /// The help text, taken from the first gathered member.
    pub help: Option<String>,
    /// The shared kind.
    pub kind: MetricKind,
    /// The member metrics.
    pub metrics: Vec<Metric>,
}

impl MetricFamily {
    /// Returns the name of this metric family.
    pub fn name(&self) -> (r: &MetricName)
        ensures
            *r == self.name,
    {
        &self.name
    }

    /// Returns the help of this metric family.
    pub fn help(&self) -> (r: Option<&str>)
        ensures
            match r {
                Option::Some(h) => self.help is Some && h@ == self.help->0@,
                Option::None => self.help is None,
            },
    {
        match &self.help {
            Some(h) => Some(h.as_str()),
            None => None,
        }
    }

    /// Returns the kind of this metric family.
    pub fn kind(&self) -> (r: MetricKind)
        ensures
            r == self.kind,
    {
        self.kind
    }

    /// Returns the metrics that belong to this family.
    pub fn metrics(&self) -> (r: &Vec<Metric>)
        ensures
            r == self.metrics,
    {
        &self.metrics
    }
}

/// Whether the families carry exactly the partition, with each family's
/// name, kind and help taken from its first member.
pub open spec fn families_of(parts: Seq<Seq<Metric>>, fams: Seq<MetricFamily>) -> bool {
    &&& fams.len() == parts.len()
    &&& forall|i: int|
        0 <= i < fams.len() ==> {
            &&& (#[trigger] fams[i]).metrics@ == parts[i]
            &&& parts[i].len() > 0
            &&& fams[i].name == metric_name_of(parts[i][0])
            &&& fams[i].kind == metric_kind_of(parts[i][0])
            &&& fams[i].help == metric_help_of(parts[i][0])
        }
}

/// Groups sorted metrics into families, preserving order.
pub fn group_families(metrics: Vec<Metric>) -> (r: Vec<MetricFamily>)
    ensures
        families_of(partition(metrics@), r@),
{
    let ghost ms = metrics@;
    let mut fams: Vec<MetricFamily> = Vec::new();
    let mut rest = metrics;
    let ghost mut i: int = 0;
    proof {
        assert(ms.take(0) =~= Seq::<Metric>::empty());
    }
    while rest.len() > 0
        invariant
            0 <= i,
            i + rest@.len() == ms.len(),
            rest@ =~= ms.skip(i),
            families_of(partition(ms.take(i)), fams@),
        decreases rest@.len(),
    {
        let m = rest.remove(0);
        proof {
            assert(ms.skip(i)[0] == ms[i as int]);
            assert(m == ms[i]);
            assert(rest@ =~= ms.skip(i + 1));
            assert(ms.take(i + 1).drop_last() =~= ms.take(i));
            assert(ms.take(i + 1).last() == ms[i]);
        }
        let ghost parts_pre = partition(ms.take(i));
        let n = fams.len();
        let mut join = false;
        if n > 0 {
            let lastfam = &fams[n - 1];
            let mlen = lastfam.metrics.len();
            if mlen > 0 && same_family_exec(&lastfam.metrics[mlen - 1], &m) {
                join = true;
            }
        }
        if join {
            let ghost fams_before = fams@;
            let mut lastfam = fams.remove(n - 1);
            lastfam.metrics.push(m);
            fams.push(lastfam);
            proof {
                let parts_post = partition(ms.take(i + 1));
                assert(parts_post == parts_pre.update(
                    parts_pre.len() - 1,
                    parts_pre.last().push(ms[i]),
                ));
                assert(fams@.len() == parts_post.len());
                assert forall|k: int| 0 <= k < fams@.len() implies {
                    &&& (#[trigger] fams@[k]).metrics@ == parts_post[k]
                    &&& parts_post[k].len() > 0
                    &&& fams@[k].name == metric_name_of(parts_post[k][0])
                    &&& fams@[k].kind == metric_kind_of(parts_post[k][0])
                    &&& fams@[k].help == metric_help_of(parts_post[k][0])
                } by {
                    if k < fams@.len() - 1 {
                        assert(fams@[k] == fams_before[k]);
                    }
                }
            }
        } else {
            let name_ref = m.name();
            let name = MetricName {
                namespace: match &name_ref.namespace {
                    Some(s) => Some(s.clone()),
                    None => None,
                },
                subsystem: match &name_ref.subsystem {
                    Some(s) => Some(s.clone()),
                    None => None,
                },
                name: name_ref.name.clone(),
            };
            let kind = m.kind();
            let help = match &m {
                Metric::Counter(c) => match &c.help {
                    Some(h) => Some(h.clone()),
                    None => None,
                },
                Metric::Gauge(g) => match &g.help {
                    Some(h) => Some(h.clone()),
                    None => None,
                },
                Metric::Summary(s) => match &s.help {
                    Some(h) => Some(h.clone()),
                    None => None,
                },
                Metric::Histogram(h) => match &h.help {
                    Some(x) => Some(x.clone()),
                    None => None,
                },
                Metric::ObservedCounter(c) => match &c.help {
                    Some(h) => Some(h.clone()),
                    None => None,
                },
            };
            let mut members: Vec<Metric> = Vec::new();
            members.push(m);
            fams.push(MetricFamily { name, help, kind, metrics: members });
            proof {
                let parts_post = partition(ms.take(i + 1));
                assert(parts_post == parts_pre.push(seq![ms[i]]));
                assert(fams@.last().metrics@ =~= seq![ms[i]]);
            }
        }
        proof {
            i = i + 1;
        }
    }
    proof {
        assert(ms.take(ms.len() as int) =~= ms);
        assert(rest@.len() == 0);
        assert(i == ms.len());
    }
    fams
}

/// The gathered, sorted, grouped snapshot.
#[derive(Debug)]
pub struct MetricFamilies {
    /// The families, in the grouping order.
    pub families: Vec<MetricFamily>,
}

impl MetricFamilies {
    /// Consumes the snapshot and returns the underlying vector.
    pub fn into_vec(self) -> (r: Vec<MetricFamily>)
        ensures
            r == self.families,
    {
        self.families
    }

    /// Returns the families.
    pub fn as_vec(&self) -> (r: &Vec<MetricFamily>)
        ensures
            r == self.families,
    {
        &self.families
    }
}


use crate::label::{Label, Labels};
use crate::render::{
    label_suffix, label_suffix_view, labels_block, labels_block_view, pieces_view, push_char,
    slot_count, ts_suffix_view, ts_text, u64_dec, u64_to_dec, Piece, PieceV, Term, assemble,
    assemble_view,
};
use crate::bucket::cum_at;
use crate::metrics::counter::counter_terms;
use crate::metrics::histogram::hist_wf;
use crate::metrics::summary::{
    nearest_rank, retained_values, sort_spec, summary_wf,
};

/// The labels of a metric.
pub open spec fn metric_labels_of(m: Metric) -> Seq<Label> {
    match m {
        Metric::Counter(c) => c.labels.entries@,
        Metric::Gauge(g) => g.labels.entries@,
        Metric::Summary(s) => s.labels.entries@,
        Metric::Histogram(h) => h.labels.entries@,
        Metric::ObservedCounter(c) => c.labels.entries@,
    }
}

/// The timestamp of a metric.
pub open spec fn metric_ts_of(m: Metric) -> Option<i64> {
    match m {
        Metric::Counter(c) => c.timestamp@,
        Metric::Gauge(g) => g.timestamp@,
        Metric::Summary(s) => s.timestamp@,
        Metric::Histogram(h) => h.timestamp@,
        Metric::ObservedCounter(c) => c.timestamp@,
    }
}

/// One sample line: the name text and label block, a space, the value slot,
/// then the timestamp suffix and the newline.
pub open spec fn sample_line_view(
    name_text: Seq<char>,
    ls: Seq<Label>,
    terms: Seq<Term>,
    ts: Option<i64>,
) -> Seq<PieceV> {
    seq![
        PieceV::Text(name_text + labels_block_view(ls) + seq![' ']),
        PieceV::Slot(terms),
        PieceV::Text(ts_suffix_view(ts) + seq!['\n']),
    ]
}

/// One cumulative-bucket line of a histogram.
pub open spec fn bucket_line_view(h: crate::metrics::histogram::Histogram, i: int) -> Seq<
    PieceV,
> {
    seq![
        PieceV::Text(full_name_view(h.name) + "_bucket{le=\""@),
        PieceV::Slot(seq![Term::Bits(h.buckets@[i].upper_bound)]),
        PieceV::Text(
            seq!['"'] + label_suffix_view(h.labels.entries@) + "} "@ + u64_dec(
                cum_at(h.buckets@, i) as nat,
            ) + ts_suffix_view(h.timestamp@) + seq!['\n'],
        ),
    ]
}

/// The first `n` cumulative-bucket lines of a histogram.
pub open spec fn bucket_lines_view(h: crate::metrics::histogram::Histogram, n: int) -> Seq<PieceV>
    decreases n,
{
    if n <= 0 {
        Seq::empty()
    } else {
        bucket_lines_view(h, n - 1) + bucket_line_view(h, n - 1)
    }
}

/// The count line of a histogram or summary: a single text piece.
pub open spec fn count_line_view(
    name: MetricName,
    ls: Seq<Label>,
    count: u64,
    ts: Option<i64>,
) -> Seq<PieceV> {
    seq![
        PieceV::Text(
            full_name_view(name) + "_count"@ + labels_block_view(ls) + seq![' '] + u64_dec(
                count as nat,
            ) + ts_suffix_view(ts) + seq!['\n'],
        ),
    ]
}

/// The pieces of a whole histogram: its cumulative-bucket lines, its sum
/// line and its count line.
pub open spec fn histogram_pieces(h: crate::metrics::histogram::Histogram) -> Seq<PieceV> {
    bucket_lines_view(h, h.buckets@.len() as int) + sample_line_view(
        full_name_view(h.name) + "_sum"@,
        h.labels.entries@,
        h.sum_terms@.map_values(|b: u64| Term::Bits(b)),
        h.timestamp@,
    ) + count_line_view(h.name, h.labels.entries@, h.count.value, h.timestamp@)
}

/// The quantile/value pairs a summary renders as of `now`.
pub open spec fn summary_qpairs(s: crate::metrics::summary::Summary, now: int) -> Seq<(u64, u64)> {
    let retained = retained_values(s.samples@, now, s.window_millis as int);
    if retained.len() == 0 {
        Seq::empty()
    } else {
        Seq::new(
            s.quantiles@.len(),
            |k: int|
                (s.quantiles@[k], sort_spec(retained)[nearest_rank(
                    s.quantiles@[k],
                    retained.len() as int,
                )]),
        )
    }
}

/// One quantile line of a summary.
pub open spec fn quantile_line_view(
    s: crate::metrics::summary::Summary,
    q: u64,
    v: u64,
) -> Seq<PieceV> {
    seq![
        PieceV::Text(full_name_view(s.name) + "{quantile=\""@),
        PieceV::Slot(seq![Term::Bits(q)]),
        PieceV::Text(seq!['"'] + label_suffix_view(s.labels.entries@) + "} "@),
        PieceV::Slot(seq![Term::Bits(v)]),
        PieceV::Text(ts_suffix_view(s.timestamp@) + seq!['\n']),
    ]
}

/// The first `n` quantile lines of a summary.
pub open spec fn quantile_lines_view(
    s: crate::metrics::summary::Summary,
    qpairs: Seq<(u64, u64)>,
    n: int,
) -> Seq<PieceV>
    decreases n,
{
    if n <= 0 {
        Seq::empty()
    } else {
        quantile_lines_view(s, qpairs, n - 1) + quantile_line_view(
            s,
            qpairs[n - 1].0,
            qpairs[n - 1].1,
        )
    }
}

/// The pieces of a whole summary as of `now`: its quantile lines, its
/// all-time sum line and its all-time count line.
pub open spec fn summary_pieces(s: crate::metrics::summary::Summary, now: int) -> Seq<PieceV> {
    quantile_lines_view(s, summary_qpairs(s, now), summary_qpairs(s, now).len() as int)
        + sample_line_view(
        full_name_view(s.name) + "_sum"@,
        s.labels.entries@,
        s.sum_terms@.map_values(|b: u64| Term::Bits(b)),
        s.timestamp@,
    ) + count_line_view(s.name, s.labels.entries@, s.count.value, s.timestamp@)
}

/// The pieces of one gathered metric as of `now`.
pub open spec fn metric_pieces(m: Metric, now: int) -> Seq<PieceV> {
    match m {
        Metric::Counter(c) => sample_line_view(
            full_name_view(c.name),
            c.labels.entries@,
            counter_terms(c),
            c.timestamp@,
        ),
        Metric::Gauge(g) => sample_line_view(
            full_name_view(g.name),
            g.labels.entries@,
            seq![Term::Bits(g.value.value)],
            g.timestamp@,
        ),
        Metric::ObservedCounter(c) => sample_line_view(
            full_name_view(c.name),
            c.labels.entries@,
            seq![Term::Bits(c.value.value)],
            c.timestamp@,
        ),
        Metric::Histogram(h) => histogram_pieces(h),
        Metric::Summary(s) => summary_pieces(s, now),
    }
}

/// The pieces of a family's members, in order.
pub open spec fn members_pieces(ms: Seq<Metric>, now: int) -> Seq<PieceV>
    decreases ms.len(),
{
    if ms.len() == 0 {
        Seq::empty()
    } else {
        members_pieces(ms.drop_last(), now) + metric_pieces(ms.last(), now)
    }
}

/// The preamble of a family: the optional `# HELP` line and the `# TYPE`
/// line, as one text piece.
pub open spec fn preamble_view(f: MetricFamily) -> Seq<char> {
    (match f.help {
        Option::Some(h) => "# HELP "@ + full_name_view(f.name) + seq![' ']
            + crate::render::escape_help(h@) + seq!['\n'],
        Option::None => Seq::empty(),
    }) + "# TYPE "@ + full_name_view(f.name) + seq![' '] + kind_word_view(f.kind) + seq!['\n']
}

/// The word a kind renders as.
pub open spec fn kind_word_view(k: MetricKind) -> Seq<char> {
    match k {
        MetricKind::Counter => "counter"@,
        MetricKind::Gauge => "gauge"@,
        MetricKind::Summary => "summary"@,
        MetricKind::Histogram => "histogram"@,
    }
}

/// The pieces of one family: its preamble and its members' lines.
pub open spec fn family_pieces(f: MetricFamily, now: int) -> Seq<PieceV> {
    seq![PieceV::Text(preamble_view(f))] + members_pieces(f.metrics@, now)
}

/// The pieces of the whole snapshot, family by family.
pub open spec fn families_pieces(fs: Seq<MetricFamily>, now: int) -> Seq<PieceV>
    decreases fs.len(),
{
    if fs.len() == 0 {
        Seq::empty()
    } else {
        families_pieces(fs.drop_last(), now) + family_pieces(fs.last(), now)
    }
}

/// Whether every member of every family carries its internal validity.
pub open spec fn families_wf(fs: Seq<MetricFamily>) -> bool {
    forall|i: int, k: int|
        0 <= i < fs.len() && 0 <= k < (#[trigger] fs[i]).metrics@.len() ==> metric_wf(
            #[trigger] fs[i].metrics@[k],
        )
}

/// Renders the full, joined metric name.
pub fn full_name(m: &MetricName) -> (r: String)
    ensures
        r@ == full_name_view(*m),
{
    let mut out = String::new();
    if let Some(ns) = &m.namespace {
        out.append(ns.as_str());
        push_char(&mut out, '_');
    }
    if let Some(ss) = &m.subsystem {
        out.append(ss.as_str());
        push_char(&mut out, '_');
    }
    out.append(m.name.as_str());
    proof {
        assert(out@ =~= full_name_view(*m));
    }
    out
}


use crate::render::{push_slot, push_text};

/// Emits one sample line.
fn emit_sample_line(
    out: &mut Vec<Piece>,
    name_text: String,
    ls: &Labels,
    terms: Vec<Term>,
    ts: &crate::timestamp::Timestamp,
)
    ensures
        pieces_view(final(out)@) == pieces_view(old(out)@) + sample_line_view(
            name_text@,
            ls.entries@,
            terms@,
            ts@,
        ),
{
    let ghost pre = pieces_view(out@);
    let mut t1 = name_text;
    let block = labels_block(ls);
    t1.append(block.as_str());
    push_char(&mut t1, ' ');
    push_text(out, t1);
    push_slot(out, terms);
    let mut t3 = ts_text(&ts.get());
    push_char(&mut t3, '\n');
    push_text(out, t3);
    proof {
        assert(pieces_view(out@) =~~= pre + sample_line_view(
            name_text@,
            ls.entries@,
            terms@,
            ts@,
        ));
    }
}

/// Emits every piece of a histogram.
fn emit_histogram(out: &mut Vec<Piece>, h: &crate::metrics::histogram::Histogram)
    requires
        hist_wf(*h),
    ensures
        pieces_view(final(out)@) == pieces_view(old(out)@) + histogram_pieces(*h),
{
    let ghost pre = pieces_view(out@);
    let cums = h.cumulative_counts();
    let base = full_name(&h.name);
    let suffix = label_suffix(&h.labels);
    let tstext = ts_text(&h.timestamp.get());
    let mut i: usize = 0;
    while i < cums.len()
        invariant
            i <= cums@.len(),
            cums@.len() == h.buckets@.len(),
            hist_wf(*h),
            base@ == full_name_view(h.name),
            suffix@ == label_suffix_view(h.labels.entries@),
            tstext@ == ts_suffix_view(h.timestamp@),
            forall|k: int|
                0 <= k < cums@.len() ==> (#[trigger] cums@[k]).upper_bound
                    == h.buckets@[k].upper_bound && cums@[k].cumulative_count == cum_at(
                    h.buckets@,
                    k,
                ),
            pieces_view(out@) == pre + bucket_lines_view(*h, i as int),
        decreases cums@.len() - i,
    {
        let mut t1 = base.clone();
        t1.append("_bucket{le=\"");
        push_text(out, t1);
        let mut terms: Vec<Term> = Vec::new();
        terms.push(Term::Bits(cums[i].upper_bound));
        push_slot(out, terms);
        let mut t3 = String::new();
        push_char(&mut t3, '"');
        t3.append(suffix.as_str());
        t3.append("} ");
        let d = u64_to_dec(cums[i].cumulative_count);
        t3.append(d.as_str());
        t3.append(tstext.as_str());
        push_char(&mut t3, '\n');
        push_text(out, t3);
        proof {
            assert(cum_at(h.buckets@, i as int) >= 0) by {
                crate::bucket::lemma_sum_counts_nonneg(h.buckets@.take(i as int + 1));
            }
            assert(pieces_view(out@) =~~= pre + bucket_lines_view(*h, i as int + 1));
        }
        i = i + 1;
    }
    let mut sum_name = base.clone();
    sum_name.append("_sum");
    let mut terms: Vec<Term> = Vec::new();
    let mut k: usize = 0;
    while k < h.sum_terms.len()
        invariant
            k <= h.sum_terms@.len(),
            terms@ =~= h.sum_terms@.take(k as int).map_values(|b: u64| Term::Bits(b)),
        decreases h.sum_terms@.len() - k,
    {
        terms.push(Term::Bits(h.sum_terms[k]));
        proof {
            assert(terms@ =~= h.sum_terms@.take(k as int + 1).map_values(
                |b: u64| Term::Bits(b),
            ));
        }
        k = k + 1;
    }
    proof {
        assert(h.sum_terms@.take(h.sum_terms@.len() as int) =~= h.sum_terms@);
    }
    emit_sample_line(out, sum_name, &h.labels, terms, &h.timestamp);
    let mut t = base.clone();
    t.append("_count");
    let block = labels_block(&h.labels);
    t.append(block.as_str());
    push_char(&mut t, ' ');
    let d = u64_to_dec(h.count.get());
    t.append(d.as_str());
    t.append(tstext.as_str());
    push_char(&mut t, '\n');
    push_text(out, t);
    proof {
        assert(pieces_view(out@) =~~= pre + histogram_pieces(*h));
    }
}

/// Emits every piece of a summary as of `now`.
fn emit_summary(out: &mut Vec<Piece>, s: &crate::metrics::summary::Summary, now: i64)
    requires
        summary_wf(*s),
    ensures
        pieces_view(final(out)@) == pieces_view(old(out)@) + summary_pieces(*s, now as int),
{
    let ghost pre = pieces_view(out@);
    let qpairs = s.quantiles_at(now);
    proof {
        assert(qpairs@ =~= summary_qpairs(*s, now as int));
    }
    let base = full_name(&s.name);
    let suffix = label_suffix(&s.labels);
    let tstext = ts_text(&s.timestamp.get());
    let mut i: usize = 0;
    while i < qpairs.len()
        invariant
            i <= qpairs@.len(),
            qpairs@ == summary_qpairs(*s, now as int),
            base@ == full_name_view(s.name),
            suffix@ == label_suffix_view(s.labels.entries@),
            tstext@ == ts_suffix_view(s.timestamp@),
            pieces_view(out@) == pre + quantile_lines_view(*s, qpairs@, i as int),
        decreases qpairs@.len() - i,
    {
        let mut t1 = base.clone();
        t1.append("{quantile=\"");
        push_text(out, t1);
        let mut qterms: Vec<Term> = Vec::new();
        qterms.push(Term::Bits(qpairs[i].0));
        push_slot(out, qterms);
        let mut t3 = String::new();
        push_char(&mut t3, '"');
        t3.append(suffix.as_str());
        t3.append("} ");
        push_text(out, t3);
        let mut vterms: Vec<Term> = Vec::new();
        vterms.push(Term::Bits(qpairs[i].1));
        push_slot(out, vterms);
        let mut t5 = String::new();
        t5.append(tstext.as_str());
        push_char(&mut t5, '\n');
        push_text(out, t5);
        proof {
            assert(pieces_view(out@) =~~= pre + quantile_lines_view(*s, qpairs@, i as int + 1));
        }
        i = i + 1;
    }
    let mut sum_name = base.clone();
    sum_name.append("_sum");
    let mut terms: Vec<Term> = Vec::new();
    let mut k: usize = 0;
    while k < s.sum_terms.len()
        invariant
            k <= s.sum_terms@.len(),
            terms@ =~= s.sum_terms@.take(k as int).map_values(|b: u64| Term::Bits(b)),
        decreases s.sum_terms@.len() - k,
    {
        terms.push(Term::Bits(s.sum_terms[k]));
        proof {
            assert(terms@ =~= s.sum_terms@.take(k as int + 1).map_values(
                |b: u64| Term::Bits(b),
            ));
        }
        k = k + 1;
    }
    proof {
        assert(s.sum_terms@.take(s.sum_terms@.len() as int) =~= s.sum_terms@);
    }
    emit_sample_line(out, sum_name, &s.labels, terms, &s.timestamp);
    let mut t = base.clone();
    t.append("_count");
    let block = labels_block(&s.labels);
    t.append(block.as_str());
    push_char(&mut t, ' ');
    let d = u64_to_dec(s.count.get());
    t.append(d.as_str());
    t.append(tstext.as_str());
    push_char(&mut t, '\n');
    push_text(out, t);
    proof {
        assert(pieces_view(out@) =~~= pre + summary_pieces(*s, now as int));
    }
}

/// Emits every piece of one gathered metric as of `now`.
fn emit_metric(out: &mut Vec<Piece>, m: &Metric, now: i64)
    requires
        metric_wf(*m),
    ensures
        pieces_view(final(out)@) == pieces_view(old(out)@) + metric_pieces(*m, now as int),
{
    match m {
        Metric::Counter(c) => {
            let terms = c.value_terms();
            emit_sample_line(out, full_name(&c.name), &c.labels, terms, &c.timestamp);
        },
        Metric::Gauge(g) => {
            let mut terms: Vec<Term> = Vec::new();
            terms.push(Term::Bits(g.value.get()));
            proof {
                assert(terms@ =~= seq![Term::Bits(g.value.value)]);
            }
            emit_sample_line(out, full_name(&g.name), &g.labels, terms, &g.timestamp);
        },
        Metric::ObservedCounter(c) => {
            let mut terms: Vec<Term> = Vec::new();
            terms.push(Term::Bits(c.value.get()));
            proof {
                assert(terms@ =~= seq![Term::Bits(c.value.value)]);
            }
            emit_sample_line(out, full_name(&c.name), &c.labels, terms, &c.timestamp);
        },
        Metric::Histogram(h) => {
            emit_histogram(out, h);
        },
        Metric::Summary(s) => {
            emit_summary(out, s, now);
        },
    }
}

impl MetricFamilies {
    /// The render pieces of the snapshot as of `now` (milliseconds): the
    /// full exposition text, with a slot wherever a floating-point value's
    /// decimal text must be supplied by the caller.
    pub fn render_pieces(&self, now: i64) -> (r: Vec<Piece>)
        requires
            families_wf(self.families@),
        ensures
            pieces_view(r@) == families_pieces(self.families@, now as int),
    {
        let mut out: Vec<Piece> = Vec::new();
        let mut i: usize = 0;
        proof {
            assert(pieces_view(out@) =~~= families_pieces(self.families@.take(0), now as int));
        }
        while i < self.families.len()
            invariant
                i <= self.families@.len(),
                families_wf(self.families@),
                pieces_view(out@) == families_pieces(self.families@.take(i as int), now as int),
            decreases self.families@.len() - i,
        {
            let ghost pre = pieces_view(out@);
            let f = &self.families[i];
            let mut t = String::new();
            if let Some(h) = &f.help {
                t.append("# HELP ");
                let fname = full_name(&f.name);
                t.append(fname.as_str());
                push_char(&mut t, ' ');
                crate::render::append_escaped_help(&mut t, h.as_str());
                push_char(&mut t, '\n');
            }
            t.append("# TYPE ");
            let fname = full_name(&f.name);
            t.append(fname.as_str());
            push_char(&mut t, ' ');
            t.append(kind_word(f.kind));
            push_char(&mut t, '\n');
            proof {
                assert(t@ =~= preamble_view(self.families@[i as int]));
            }
            push_text(&mut out, t);
            let ghost memstart = pieces_view(out@);
            let mut k: usize = 0;
            proof {
                assert(memstart =~~= pre + seq![PieceV::Text(preamble_view(
                    self.families@[i as int],
                ))]);
                assert(pieces_view(out@) =~~= memstart + members_pieces(
                    f.metrics@.take(0),
                    now as int,
                ));
            }
            while k < f.metrics.len()
                invariant
                    k <= f.metrics@.len(),
                    families_wf(self.families@),
                    i < self.families@.len(),
                    f == &self.families@[i as int],
                    pieces_view(out@) == memstart + members_pieces(
                        f.metrics@.take(k as int),
                        now as int,
                    ),
                decreases f.metrics@.len() - k,
            {
                proof {
                    assert(metric_wf(self.families@[i as int].metrics@[k as int]));
                    assert(f.metrics@.take(k as int + 1).drop_last() =~= f.metrics@.take(
                        k as int,
                    ));
                    assert(f.metrics@.take(k as int + 1).last() == f.metrics@[k as int]);
                }
                emit_metric(&mut out, &f.metrics[k], now);
                proof {
                    assert(pieces_view(out@) =~~= memstart + members_pieces(
                        f.metrics@.take(k as int + 1),
                        now as int,
                    ));
                }
                k = k + 1;
            }
            proof {
                assert(f.metrics@.take(f.metrics@.len() as int) =~= f.metrics@);
                assert(self.families@.take(i as int + 1).drop_last() =~= self.families@.take(
                    i as int,
                ));
                assert(self.families@.take(i as int + 1).last() == self.families@[i as int]);
                assert(pieces_view(out@) =~~= families_pieces(
                    self.families@.take(i as int + 1),
                    now as int,
                ));
            }
            i = i + 1;
        }
        proof {
            assert(self.families@.take(self.families@.len() as int) =~= self.families@);
        }
        out
    }

    /// Converts to the text format as of `now`: the caller supplies the
    /// decimal text of each slot of `render_pieces`, in order.
    pub fn to_text(&self, now: i64, texts: &Vec<String>) -> (r: String)
        requires
            families_wf(self.families@),
            texts@.len() == slot_count(families_pieces(self.families@, now as int)),
        ensures
            r@ == assemble_view(
                families_pieces(self.families@, now as int),
                texts@.map_values(|s: String| s@),
            ),
    {
        let pieces = self.render_pieces(now);
        assemble(&pieces, texts)
    }
}

} // verus!
