use vstd::prelude::*;

use crate::model::{
    labels_view, points_view, CheckClass, CheckClassView, DomainTestResult, DomainTestResultView,
    Label, LabelView, PointView, ProbeRequest, ProbeRequestView, TimeSeriesPoint, Timestamp,
};

verus! {

/// Whether some label of `s` is called `name`.
pub open spec fn has_name(s: Seq<LabelView>, name: Seq<char>) -> bool {
    exists|i: int| 0 <= i < s.len() && s[i].name == name
}

/// The labels of `base` that `extra` does not name again, in their order,
/// followed by all of `extra`: a label of `extra` wins over one of `base`
/// with the same name.
pub open spec fn merged_labels(base: Seq<LabelView>, extra: Seq<LabelView>) -> Seq<LabelView> {
    base.filter(|l: LabelView| !has_name(extra, l.name)) + extra
}

/// The value written for the status check: the HTTP status, or 0 when the
/// probe got no response.
pub open spec fn status_value(r: DomainTestResultView) -> u64 {
    match r.http_status {
        Some(s) => s as u64,
        None => 0,
    }
}

pub open spec fn point_of(
    ts: Timestamp,
    base: Seq<LabelView>,
    class: CheckClassView,
    value: u64,
) -> PointView {
    PointView {
        timestamp: ts,
        metric_name: class.metric_name,
        labels: merged_labels(base, class.extra_labels),
        value,
    }
}

/// One point when the check is configured, none otherwise.
pub open spec fn optional_point(
    ts: Timestamp,
    base: Seq<LabelView>,
    class: Option<CheckClassView>,
    value: u64,
) -> Seq<PointView> {
    match class {
        Some(c) => seq![point_of(ts, base, c, value)],
        None => Seq::empty(),
    }
}

/// The points of one probe result: status, then latency, then content
/// length, each one only if the request configures that check.
pub open spec fn result_points(
    req: ProbeRequestView,
    res: DomainTestResultView,
    ts: Timestamp,
) -> Seq<PointView> {
    optional_point(ts, req.labels, req.checks.status, status_value(res)) + optional_point(
        ts,
        req.labels,
        req.checks.latency,
        res.answer_time_ms,
    ) + optional_point(ts, req.labels, req.checks.content_length, res.content_length)
}

pub open spec fn results_view(v: Seq<DomainTestResult>) -> Seq<DomainTestResultView> {
    v.map_values(|r: DomainTestResult| r@)
}

/// The points of several results of one request, result after result.
pub open spec fn all_results_points(
    req: ProbeRequestView,
    results: Seq<DomainTestResultView>,
    ts: Timestamp,
) -> Seq<PointView>
    decreases results.len(),
{
    if results.len() == 0 {
        Seq::empty()
    } else {
        all_results_points(req, results.drop_last(), ts) + result_points(req, results.last(), ts)
    }
}

/// A request with a status and a latency check (and no content-length
/// check), against a target that answered with status `status` after `d`
/// milliseconds, yields exactly two points: the status metric with value
/// `status`, then the latency metric with value `d`, each labelled with the
/// request's labels merged with its check's extra labels.
pub proof fn lemma_status_and_latency_points(
    req: ProbeRequestView,
    res: DomainTestResultView,
    ts: Timestamp,
    status: u16,
    d: u64,
)
    requires
        req.checks.latency is Some,
        req.checks.status is Some,
        req.checks.content_length is None,
        res.http_status == Some(status),
        res.answer_time_ms == d,
    ensures
        ({
            let pts = result_points(req, res, ts);
            let st = req.checks.status->0;
            let lat = req.checks.latency->0;
            &&& pts.len() == 2
            &&& pts[0].metric_name == st.metric_name
            &&& pts[0].value == status as u64
            &&& pts[0].labels == merged_labels(req.labels, st.extra_labels)
            &&& pts[1].metric_name == lat.metric_name
            &&& pts[1].value == d
            &&& pts[1].labels == merged_labels(req.labels, lat.extra_labels)
            &&& pts[0].timestamp == ts && pts[1].timestamp == ts
        }),
{
    let pts = result_points(req, res, ts);
    assert(pts =~= seq![
        point_of(ts, req.labels, req.checks.status->0, status as u64),
        point_of(ts, req.labels, req.checks.latency->0, d),
    ]);
}

/// With a status and a latency check (and no content-length check), the
/// results of a buffer yield, result after result in buffer order, the
/// status point then the latency point of each: two points per result, none
/// dropped or duplicated.
pub proof fn lemma_buffered_points(
    req: ProbeRequestView,
    results: Seq<DomainTestResultView>,
    ts: Timestamp,
)
    requires
        req.checks.latency is Some,
        req.checks.status is Some,
        req.checks.content_length is None,
    ensures
        all_results_points(req, results, ts).len() == 2 * results.len(),
        forall|i: int|
            0 <= i < results.len() ==> {
                &&& all_results_points(req, results, ts)[2 * i] == point_of(
                    ts,
                    req.labels,
                    req.checks.status->0,
                    status_value(#[trigger] results[i]),
                )
                &&& all_results_points(req, results, ts)[2 * i + 1] == point_of(
                    ts,
                    req.labels,
                    req.checks.latency->0,
                    results[i].answer_time_ms,
                )
            },
    decreases results.len(),
{
    if results.len() > 0 {
        let prev = results.drop_last();
        lemma_buffered_points(req, prev, ts);
        let last = result_points(req, results.last(), ts);
        assert(last =~= seq![
            point_of(ts, req.labels, req.checks.status->0, status_value(results.last())),
            point_of(ts, req.labels, req.checks.latency->0, results.last().answer_time_ms),
        ]);
        let all = all_results_points(req, results, ts);
        assert forall|i: int| 0 <= i < results.len() implies {
            &&& all[2 * i] == point_of(
                ts,
                req.labels,
                req.checks.status->0,
                status_value(#[trigger] results[i]),
            )
            &&& all[2 * i + 1] == point_of(
                ts,
                req.labels,
                req.checks.latency->0,
                results[i].answer_time_ms,
            )
        } by {
            if i < prev.len() {
                assert(prev[i] == results[i]);
                assert(all_results_points(req, prev, ts)[2 * i] == all[2 * i]);
                assert(all_results_points(req, prev, ts)[2 * i + 1] == all[2 * i + 1]);
            }
        }
    }
}

/// Whether some label of `labels` is called `name`.
pub fn contains_name(labels: &Vec<Label>, name: &String) -> (r: bool)
    ensures
        r == has_name(labels_view(labels@), name@),
{
    let mut i: usize = 0;
    while i < labels.len()
        invariant
            i <= labels@.len(),
            forall|j: int| 0 <= j < i ==> labels@[j].name@ != name@,
        decreases labels@.len() - i,
    {
        if labels[i].name == *name {
            assert(labels_view(labels@)[i as int].name == name@);
            return true;
        }
        i = i + 1;
    }
    assert forall|j: int| 0 <= j < labels@.len() implies labels_view(labels@)[j].name != name@ by {
        assert(labels_view(labels@)[j] == labels@[j]@);
    }
    false
}

/// The labels of a point: `base` with the labels of `extra` laid over it.
pub fn merge_labels(base: &Vec<Label>, extra: &Vec<Label>) -> (r: Vec<Label>)
    ensures
        labels_view(r@) == merged_labels(labels_view(base@), labels_view(extra@)),
{
    let ghost keep = |l: LabelView| !has_name(labels_view(extra@), l.name);
    let mut r: Vec<Label> = Vec::new();
    let mut i: usize = 0;
    while i < base.len()
        invariant
            i <= base@.len(),
            keep == (|l: LabelView| !has_name(labels_view(extra@), l.name)),
            labels_view(r@) == labels_view(base@).take(i as int).filter(keep),
        decreases base@.len() - i,
    {
        let ghost before = r@;
        let ghost prefix = labels_view(base@).take(i + 1);
        assert(prefix.drop_last() =~= labels_view(base@).take(i as int));
        assert(prefix.last() == base@[i as int]@);
        proof {
            reveal(Seq::filter);
        }
        if !contains_name(extra, &base[i].name) {
            r.push(base[i].clone());
            assert(labels_view(r@) =~= labels_view(before).push(base@[i as int]@));
        } else {
            assert(labels_view(r@) =~= labels_view(before));
        }
        i = i + 1;
    }
    assert(labels_view(base@).take(base@.len() as int) =~= labels_view(base@));
    let mut j: usize = 0;
    let ghost kept = labels_view(r@);
    while j < extra.len()
        invariant
            j <= extra@.len(),
            labels_view(r@) == kept + labels_view(extra@).take(j as int),
        decreases extra@.len() - j,
    {
        let ghost before = r@;
        r.push(extra[j].clone());
        assert(labels_view(r@) =~= labels_view(before).push(extra@[j as int]@));
        assert(labels_view(extra@).take(j + 1) =~= labels_view(extra@).take(j as int).push(
            extra@[j as int]@,
        ));
        j = j + 1;
    }
    assert(labels_view(extra@).take(extra@.len() as int) =~= labels_view(extra@));
    r
}

/// Appends the point of one check, if the request configures it.
fn push_check_point(
    out: &mut Vec<TimeSeriesPoint>,
    ts: Timestamp,
    base: &Vec<Label>,
    class: &Option<CheckClass>,
    value: u64,
)
    ensures
        points_view(final(out)@) == points_view(old(out)@) + optional_point(
            ts,
            labels_view(base@),
            crate::model::class_view(*class),
            value,
        ),
{
    match class {
        Some(c) => {
            let labels = merge_labels(base, &c.labels);
            let p = TimeSeriesPoint {
                timestamp: ts,
                metric_name: c.class_name.clone(),
                labels,
                value,
            };
            let ghost before = out@;
            out.push(p);
            assert(points_view(out@) =~= points_view(before).push(p@));
        },
        None => {
            assert(points_view(out@) =~= points_view(out@) + Seq::<PointView>::empty());
        },
    }
}

/// Appends the points of one probe result to `out`.
pub fn push_result_points(
    out: &mut Vec<TimeSeriesPoint>,
    req: &ProbeRequest,
    res: &DomainTestResult,
    ts: Timestamp,
)
    ensures
        points_view(final(out)@) == points_view(old(out)@) + result_points(req@, res@, ts),
{
    let status: u64 = match res.http_status {
        Some(s) => s as u64,
        None => 0,
    };
    let ghost start = points_view(out@);
    push_check_point(out, ts, &req.labels, &req.checks.status, status);
    push_check_point(out, ts, &req.labels, &req.checks.latency, res.answer_time_ms);
    push_check_point(out, ts, &req.labels, &req.checks.content_length, res.content_length);
    assert(points_view(out@) =~= start + result_points(req@, res@, ts));
}

/// The points of one probe result, stamped with `ts`.
pub fn points_for_result(req: &ProbeRequest, res: &DomainTestResult, ts: Timestamp) -> (r: Vec<
    TimeSeriesPoint,
>)
    ensures
        points_view(r@) == result_points(req@, res@, ts),
{
    let mut out: Vec<TimeSeriesPoint> = Vec::new();
    push_result_points(&mut out, req, res, ts);
    assert(points_view(out@) =~= Seq::<PointView>::empty() + result_points(req@, res@, ts));
    out
}

/// The results of probing one request, all written with one timestamp.
#[derive(Debug)]
pub struct BufferedDomainTestResult {
    pub domain_test_results: Vec<DomainTestResult>,
    pub timestamp: Timestamp,
    pub request: ProbeRequest,
}

impl BufferedDomainTestResult {
    /// The points of every result, in the order of the results.
    pub fn to_points(&self) -> (r: Vec<TimeSeriesPoint>)
        ensures
            points_view(r@) == all_results_points(
                self.request@,
                results_view(self.domain_test_results@),
                self.timestamp,
            ),
    {
        let results = &self.domain_test_results;
        let mut out: Vec<TimeSeriesPoint> = Vec::new();
        let mut i: usize = 0;
        while i < results.len()
            invariant
                i <= results@.len(),
                points_view(out@) == all_results_points(
                    self.request@,
                    results_view(results@).take(i as int),
                    self.timestamp,
                ),
            decreases results@.len() - i,
        {
            let ghost prefix = results_view(results@).take(i + 1);
            assert(prefix.drop_last() =~= results_view(results@).take(i as int));
            assert(prefix.last() == results@[i as int]@);
            push_result_points(&mut out, &self.request, &results[i], self.timestamp);
            i = i + 1;
        }
        assert(results_view(results@).take(results@.len() as int) =~= results_view(results@));
        out
    }
}

} // verus!
