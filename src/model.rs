use vstd::prelude::*;

verus! {

/// Opaque handle that the queue gives each inbound message; it is handed back
/// exactly once, as an ack or a reject.
#[derive(PartialEq, Eq, Structural, Clone, Copy, Debug)]
pub struct DeliveryToken(pub u64);

/// A point in time: whole seconds since the Unix epoch and the microseconds
/// within that second.
#[derive(PartialEq, Eq, Structural, Clone, Copy, Debug)]
pub struct Timestamp {
    pub secs: i64,
    pub micros: u32,
}

/// One `name=value` label of a time series.
#[derive(Debug)]
pub struct Label {
    pub name: String,
    pub value: String,
}

pub struct LabelView {
    pub name: Seq<char>,
    pub value: Seq<char>,
}

impl View for Label {
    type V = LabelView;

    open spec fn view(&self) -> LabelView {
        LabelView { name: self.name@, value: self.value@ }
    }
}

impl Clone for Label {
    fn clone(&self) -> (r: Self)
        ensures
            r@ == self@,
    {
        Label { name: self.name.clone(), value: self.value.clone() }
    }
}

impl Label {
    pub fn new(name: &str, value: &str) -> (r: Label)
        ensures
            r@.name == name@,
            r@.value == value@,
    {
        Label { name: name.to_string(), value: value.to_string() }
    }
}

pub open spec fn labels_view(v: Seq<Label>) -> Seq<LabelView> {
    v.map_values(|l: Label| l@)
}

/// Copies a list of labels, keeping every name and value.
pub fn clone_labels(v: &Vec<Label>) -> (r: Vec<Label>)
    ensures
        labels_view(r@) == labels_view(v@),
{
    let mut r: Vec<Label> = Vec::new();
    let mut i: usize = 0;
    while i < v.len()
        invariant
            i <= v@.len(),
            labels_view(r@) == labels_view(v@.take(i as int)),
        decreases v@.len() - i,
    {
        let l = v[i].clone();
        let ghost before = r@;
        r.push(l);
        assert(v@.take(i + 1) =~= v@.take(i as int).push(v@[i as int]));
        assert(labels_view(r@) =~= labels_view(before).push(l@));
        i = i + 1;
    }
    assert(v@.take(v@.len() as int) =~= v@);
    r
}

/// How one kind of measurement is published: the metric it is written to,
/// and labels added to the request's labels for that metric only.
#[derive(Debug)]
pub struct CheckClass {
    pub class_name: String,
    pub labels: Vec<Label>,
}

pub struct CheckClassView {
    pub metric_name: Seq<char>,
    pub extra_labels: Seq<LabelView>,
}

impl View for CheckClass {
    type V = CheckClassView;

    open spec fn view(&self) -> CheckClassView {
        CheckClassView { metric_name: self.class_name@, extra_labels: labels_view(self.labels@) }
    }
}

impl Clone for CheckClass {
    fn clone(&self) -> (r: Self)
        ensures
            r@ == self@,
    {
        CheckClass { class_name: self.class_name.clone(), labels: clone_labels(&self.labels) }
    }
}

pub open spec fn class_view(c: Option<CheckClass>) -> Option<CheckClassView> {
    match c {
        Some(c) => Some(c@),
        None => None,
    }
}

/// The measurements a request asks for, one optional class per kind.
#[derive(Debug)]
pub struct Checks {
    pub latency: Option<CheckClass>,
    pub status: Option<CheckClass>,
    pub content_length: Option<CheckClass>,
}

pub struct ChecksView {
    pub latency: Option<CheckClassView>,
    pub status: Option<CheckClassView>,
    pub content_length: Option<CheckClassView>,
}

impl View for Checks {
    type V = ChecksView;

    open spec fn view(&self) -> ChecksView {
        ChecksView {
            latency: class_view(self.latency),
            status: class_view(self.status),
            content_length: class_view(self.content_length),
        }
    }
}

pub fn clone_class(c: &Option<CheckClass>) -> (r: Option<CheckClass>)
    ensures
        class_view(r) == class_view(*c),
{
    match c {
        Some(c) => Some(c.clone()),
        None => None,
    }
}

impl Clone for Checks {
    fn clone(&self) -> (r: Self)
        ensures
            r@ == self@,
    {
        Checks {
            latency: clone_class(&self.latency),
            status: clone_class(&self.status),
            content_length: clone_class(&self.content_length),
        }
    }
}

/// A decoded probe request: the target, the labels of every point it yields,
/// and the measurements to publish.
#[derive(Debug)]
pub struct ProbeRequest {
    pub url: String,
    pub labels: Vec<Label>,
    pub checks: Checks,
}

pub struct ProbeRequestView {
    pub url: Seq<char>,
    pub labels: Seq<LabelView>,
    pub checks: ChecksView,
}

impl View for ProbeRequest {
    type V = ProbeRequestView;

    open spec fn view(&self) -> ProbeRequestView {
        ProbeRequestView { url: self.url@, labels: labels_view(self.labels@), checks: self.checks@ }
    }
}

impl Clone for ProbeRequest {
    fn clone(&self) -> (r: Self)
        ensures
            r@ == self@,
    {
        ProbeRequest {
            url: self.url.clone(),
            labels: clone_labels(&self.labels),
            checks: self.checks.clone(),
        }
    }
}

/// The outcome of one probe. A transport failure leaves `http_status` empty
/// and sets `error`; it is still a valid, final outcome.
#[derive(Debug)]
pub struct DomainTestResult {
    pub url: String,
    pub http_status: Option<u16>,
    pub answer_time_ms: u64,
    pub content_length: u64,
    pub error: Option<String>,
}

pub struct DomainTestResultView {
    pub url: Seq<char>,
    pub http_status: Option<u16>,
    pub answer_time_ms: u64,
    pub content_length: u64,
    pub failed: bool,
}

impl View for DomainTestResult {
    type V = DomainTestResultView;

    open spec fn view(&self) -> DomainTestResultView {
        DomainTestResultView {
            url: self.url@,
            http_status: self.http_status,
            answer_time_ms: self.answer_time_ms,
            content_length: self.content_length,
            failed: self.error is Some,
        }
    }
}

/// One numeric sample of a time series.
#[derive(Debug)]
pub struct TimeSeriesPoint {
    pub timestamp: Timestamp,
    pub metric_name: String,
    pub labels: Vec<Label>,
    pub value: u64,
}

pub struct PointView {
    pub timestamp: Timestamp,
    pub metric_name: Seq<char>,
    pub labels: Seq<LabelView>,
    pub value: u64,
}

impl View for TimeSeriesPoint {
    type V = PointView;

    open spec fn view(&self) -> PointView {
        PointView {
            timestamp: self.timestamp,
            metric_name: self.metric_name@,
            labels: labels_view(self.labels@),
            value: self.value,
        }
    }
}

impl Clone for TimeSeriesPoint {
    fn clone(&self) -> (r: Self)
        ensures
            r@ == self@,
    {
        TimeSeriesPoint {
            timestamp: self.timestamp,
            metric_name: self.metric_name.clone(),
            labels: clone_labels(&self.labels),
            value: self.value,
        }
    }
}

pub open spec fn points_view(v: Seq<TimeSeriesPoint>) -> Seq<PointView> {
    v.map_values(|p: TimeSeriesPoint| p@)
}

} // verus!
