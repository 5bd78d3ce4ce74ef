use poke_agent::model::{
    CheckClass, Checks, DomainTestResult, Label, ProbeRequest, TimeSeriesPoint, Timestamp,
};
use poke_agent::points::{merge_labels, points_for_result, BufferedDomainTestResult};

fn label(name: &str, value: &str) -> Label {
    Label::new(name, value)
}

fn pairs(labels: &[Label]) -> Vec<(String, String)> {
    labels.iter().map(|l| (l.name.clone(), l.value.clone())).collect()
}

fn class(name: &str, extra: Vec<Label>) -> CheckClass {
    CheckClass { class_name: name.to_string(), labels: extra }
}

fn request(checks: Checks) -> ProbeRequest {
    ProbeRequest {
        url: "http://example.org".to_string(),
        labels: vec![label("host", "agent-1"), label("zone", "eu")],
        checks,
    }
}

fn answered(status: u16, ms: u64) -> DomainTestResult {
    DomainTestResult::from_response("http://example.org", status, ms, Some("512"))
}

const TS: Timestamp = Timestamp { secs: 1_600_000_000, micros: 250 };

fn names_values(points: &[TimeSeriesPoint]) -> Vec<(String, u64)> {
    points.iter().map(|p| (p.metric_name.clone(), p.value)).collect()
}

#[test]
fn merge_keeps_base_order_and_appends_extra() {
    let base = vec![label("a", "1"), label("b", "2")];
    let extra = vec![label("c", "3")];
    let merged = merge_labels(&base, &extra);
    assert_eq!(
        pairs(&merged),
        vec![
            ("a".to_string(), "1".to_string()),
            ("b".to_string(), "2".to_string()),
            ("c".to_string(), "3".to_string())
        ]
    );
}

#[test]
fn merge_extra_label_wins_over_base() {
    let base = vec![label("a", "1"), label("zone", "eu"), label("b", "2")];
    let extra = vec![label("zone", "us")];
    let merged = merge_labels(&base, &extra);
    assert_eq!(
        pairs(&merged),
        vec![
            ("a".to_string(), "1".to_string()),
            ("b".to_string(), "2".to_string()),
            ("zone".to_string(), "us".to_string())
        ]
    );
}

#[test]
fn merge_with_empty_sides() {
    assert!(merge_labels(&vec![], &vec![]).is_empty());
    let base = vec![label("a", "1")];
    assert_eq!(pairs(&merge_labels(&base, &vec![])), pairs(&base));
    assert_eq!(pairs(&merge_labels(&vec![], &base)), pairs(&base));
}

#[test]
fn latency_and_status_round_trip() {
    let req = request(Checks {
        latency: Some(class("http-latency", vec![label("kind", "latency")])),
        status: Some(class("http-status", vec![])),
        content_length: None,
    });
    let res = answered(200, 87);
    let points = points_for_result(&req, &res, TS);
    assert_eq!(
        names_values(&points),
        vec![("http-status".to_string(), 200), ("http-latency".to_string(), 87)]
    );
    assert_eq!(
        pairs(&points[0].labels),
        vec![
            ("host".to_string(), "agent-1".to_string()),
            ("zone".to_string(), "eu".to_string())
        ]
    );
    assert_eq!(
        pairs(&points[1].labels),
        vec![
            ("host".to_string(), "agent-1".to_string()),
            ("zone".to_string(), "eu".to_string()),
            ("kind".to_string(), "latency".to_string())
        ]
    );
    assert_eq!(points[0].timestamp, TS);
    assert_eq!(points[1].timestamp, TS);
}

#[test]
fn one_point_per_configured_check() {
    let req = request(Checks {
        latency: Some(class("lat", vec![])),
        status: Some(class("st", vec![])),
        content_length: Some(class("len", vec![])),
    });
    let points = points_for_result(&req, &answered(404, 12), TS);
    assert_eq!(
        names_values(&points),
        vec![("st".to_string(), 404), ("lat".to_string(), 12), ("len".to_string(), 512)]
    );
    let none = request(Checks { latency: None, status: None, content_length: None });
    assert!(points_for_result(&none, &answered(200, 5), TS).is_empty());
}

#[test]
fn transport_failure_still_yields_points() {
    let req = request(Checks {
        latency: Some(class("lat", vec![])),
        status: Some(class("st", vec![])),
        content_length: Some(class("len", vec![])),
    });
    let res = DomainTestResult::failed("http://example.org", 3000, "timed out".to_string());
    let points = points_for_result(&req, &res, TS);
    assert_eq!(
        names_values(&points),
        vec![("st".to_string(), 0), ("lat".to_string(), 3000), ("len".to_string(), 0)]
    );
}

#[test]
fn buffered_results_give_points_result_after_result() {
    let req = request(Checks {
        latency: Some(class("http.response.time", vec![])),
        status: Some(class("http.response.status", vec![])),
        content_length: None,
    });
    let buffered = BufferedDomainTestResult {
        domain_test_results: vec![answered(301, 40), answered(200, 90)],
        timestamp: TS,
        request: req,
    };
    assert_eq!(
        names_values(&buffered.to_points()),
        vec![
            ("http.response.status".to_string(), 301),
            ("http.response.time".to_string(), 40),
            ("http.response.status".to_string(), 200),
            ("http.response.time".to_string(), 90)
        ]
    );
    let empty = BufferedDomainTestResult {
        domain_test_results: vec![],
        timestamp: TS,
        request: request(Checks { latency: None, status: None, content_length: None }),
    };
    assert!(empty.to_points().is_empty());
}
