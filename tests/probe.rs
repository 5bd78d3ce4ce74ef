use poke_agent::clock::now;
use poke_agent::counters::Counters;
use poke_agent::model::DomainTestResult;
use poke_agent::probe::{content_length_of, probe_urls};
use poke_agent::request::{plain_request, RequestBenchEvent};

#[test]
fn content_length_parses_decimal_numbers() {
    assert_eq!(content_length_of(Some("1234")), 1234);
    assert_eq!(content_length_of(Some("+5")), 5);
    assert_eq!(content_length_of(Some("0")), 0);
    assert_eq!(content_length_of(Some("18446744073709551615")), u64::MAX);
}

#[test]
fn content_length_falls_back_to_zero() {
    assert_eq!(content_length_of(None), 0);
    assert_eq!(content_length_of(Some("")), 0);
    assert_eq!(content_length_of(Some("abc")), 0);
    assert_eq!(content_length_of(Some(" 12")), 0);
    assert_eq!(content_length_of(Some("-1")), 0);
    assert_eq!(content_length_of(Some("+")), 0);
    assert_eq!(content_length_of(Some("18446744073709551616")), 0);
}

#[test]
fn response_and_failure_results() {
    let r = DomainTestResult::from_response("https://a.example", 503, 77, Some("42"));
    assert_eq!(r.http_status, Some(503));
    assert_eq!(r.answer_time_ms, 77);
    assert_eq!(r.content_length, 42);
    assert!(r.error.is_none());
    let f = DomainTestResult::failed("https://a.example", 10, "dns".to_string());
    assert_eq!(f.http_status, None);
    assert_eq!(f.content_length, 0);
    assert_eq!(f.error.as_deref(), Some("dns"));
}

#[test]
fn urls_for_domain() {
    let (plain, tls) = probe_urls("example.org");
    assert_eq!(plain, "http://example.org");
    assert_eq!(tls, "https://example.org");
}

#[test]
fn clock_reads_current_time() {
    let t = now();
    assert!(t.secs > 1_600_000_000);
    assert!(t.micros < 1_000_000);
}

#[test]
fn probe_order_becomes_labelled_request() {
    let order = RequestBenchEvent::new("example.org", "https://example.org/health", "http://w:8080/", "tok");
    assert_eq!(order.warp10_endpoint, "http://w:8080/");
    assert_eq!(order.token, "tok");
    let r = order.to_probe_request();
    assert_eq!(r.url, "https://example.org/health");
    assert_eq!(r.labels.len(), 1);
    assert_eq!(r.labels[0].name, "domain");
    assert_eq!(r.labels[0].value, "example.org");
    assert_eq!(r.checks.latency.unwrap().class_name, "http.response.time");
    assert_eq!(r.checks.status.unwrap().class_name, "http.response.status");
    assert!(r.checks.content_length.is_none());
}

#[test]
fn counters_count_and_saturate() {
    let mut c = Counters::new();
    c.record_check();
    c.record_check();
    c.record_check_error();
    c.record_queue_error();
    assert_eq!((c.checks, c.check_errors, c.queue_errors), (2, 1, 1));
    c.checks = u64::MAX;
    c.record_check();
    assert_eq!(c.checks, u64::MAX);
}

#[test]
fn plain_request_has_no_labels() {
    let r = plain_request("http://example.org");
    assert_eq!(r.url, "http://example.org");
    assert!(r.labels.is_empty());
    assert_eq!(r.checks.status.unwrap().class_name, "http.response.status");
    assert_eq!(r.checks.latency.unwrap().class_name, "http.response.time");
}
