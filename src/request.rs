use vstd::prelude::*;

use crate::model::{
    CheckClass, CheckClassView, Checks, ChecksView, Label, LabelView, ProbeRequest,
    ProbeRequestView,
};

verus! {

/// Metric of the latency check of a probe order.
pub const LATENCY_METRIC: &'static str = "http.response.time";

/// Metric of the status check of a probe order.
pub const STATUS_METRIC: &'static str = "http.response.status";

/// Name of the label that carries the probed domain.
pub const DOMAIN_LABEL: &'static str = "domain";

/// An order to probe one domain, as the `send-kafka` command writes it.
#[derive(Debug)]
pub struct RequestBenchEvent {
    pub domain_name: String,
    pub url: String,
    pub warp10_endpoint: String,
    pub token: String,
}

/// The checks of a probe order: latency and status, each to its metric,
/// without extra labels.
pub open spec fn default_checks_view() -> ChecksView {
    ChecksView {
        latency: Some(CheckClassView { metric_name: LATENCY_METRIC@, extra_labels: Seq::empty() }),
        status: Some(CheckClassView { metric_name: STATUS_METRIC@, extra_labels: Seq::empty() }),
        content_length: None,
    }
}

/// The request a probe order stands for: its URL, labelled with its domain,
/// with the default checks.
pub open spec fn order_request(domain_name: Seq<char>, url: Seq<char>) -> ProbeRequestView {
    ProbeRequestView {
        url,
        labels: seq![LabelView { name: DOMAIN_LABEL@, value: domain_name }],
        checks: default_checks_view(),
    }
}

/// The checks of a probe order (see `default_checks_view`).
pub fn default_checks() -> (r: Checks)
    ensures
        r@ == default_checks_view(),
{
    let latency = CheckClass { class_name: LATENCY_METRIC.to_string(), labels: Vec::new() };
    let status = CheckClass { class_name: STATUS_METRIC.to_string(), labels: Vec::new() };
    let r = Checks { latency: Some(latency), status: Some(status), content_length: None };
    assert(r@.latency->0.extra_labels =~= Seq::<LabelView>::empty());
    assert(r@.status->0.extra_labels =~= Seq::<LabelView>::empty());
    r
}

/// A request for `url` with no labels and the checks of a probe order.
pub fn plain_request(url: &str) -> (r: ProbeRequest)
    ensures
        r@ == (ProbeRequestView { url: url@, labels: Seq::empty(), checks: default_checks_view() }),
{
    let r = ProbeRequest { url: url.to_string(), labels: Vec::new(), checks: default_checks() };
    assert(r@.labels =~= Seq::<LabelView>::empty());
    r
}

impl RequestBenchEvent {
    pub fn new(domain_name: &str, url: &str, warp10_endpoint: &str, token: &str) -> (r:
        RequestBenchEvent)
        ensures
            r.domain_name@ == domain_name@,
            r.url@ == url@,
            r.warp10_endpoint@ == warp10_endpoint@,
            r.token@ == token@,
    {
        RequestBenchEvent {
            domain_name: domain_name.to_string(),
            url: url.to_string(),
            warp10_endpoint: warp10_endpoint.to_string(),
            token: token.to_string(),
        }
    }

    /// The probe request this order stands for (see `order_request`).
    pub fn to_probe_request(&self) -> (r: ProbeRequest)
        ensures
            r@ == order_request(self.domain_name@, self.url@),
    {
        let mut labels: Vec<Label> = Vec::new();
        let domain = Label { name: DOMAIN_LABEL.to_string(), value: self.domain_name.clone() };
        labels.push(domain);
        let r = ProbeRequest { url: self.url.clone(), labels, checks: default_checks() };
        assert(r@.labels =~= seq![LabelView { name: DOMAIN_LABEL@, value: self.domain_name@ }]);
        r
    }
}

} // verus!
