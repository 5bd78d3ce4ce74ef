use std::collections::{BTreeMap, BTreeSet};

use poke_agent::control::{Action, ControlLoop, PipelineEvent};
use poke_agent::model::{CheckClass, Checks, DeliveryToken, DomainTestResult, ProbeRequest, Timestamp};

fn req(i: u64) -> ProbeRequest {
    ProbeRequest {
        url: format!("http://target-{}", i),
        labels: vec![],
        checks: Checks {
            latency: Some(CheckClass { class_name: "lat".to_string(), labels: vec![] }),
            status: Some(CheckClass { class_name: "st".to_string(), labels: vec![] }),
            content_length: None,
        },
    }
}

fn ok_result(i: u64, ms: u64) -> DomainTestResult {
    DomainTestResult::from_response(&format!("http://target-{}", i), 200, ms, None)
}

const TS: Timestamp = Timestamp { secs: 1_700_000_000, micros: 0 };

fn is_start(a: &Action, t: u64) -> bool {
    matches!(a, Action::Start { token, .. } if *token == DeliveryToken(t))
}

#[test]
fn malformed_payload_is_acked_without_probe() {
    let mut lp = ControlLoop::new(4);
    let acts = lp.on_inbound(DeliveryToken(1), None);
    assert_eq!(acts.len(), 1);
    assert!(matches!(acts[0], Action::Ack { token } if token == DeliveryToken(1)));
    assert_eq!(lp.in_flight(), 0);
    assert!(!lp.holds(DeliveryToken(1)));
}

#[test]
fn valid_request_is_started_then_emitted_then_acked() {
    let mut lp = ControlLoop::new(2);
    let acts = lp.on_inbound(DeliveryToken(5), Some(req(5)));
    assert_eq!(acts.len(), 1);
    assert!(matches!(&acts[0], Action::Start { token, url } if *token == DeliveryToken(5) && url == "http://target-5"));
    assert!(lp.holds(DeliveryToken(5)));
    let acts = lp.on_completion_at(DeliveryToken(5), ok_result(5, 30), TS);
    assert_eq!(acts.len(), 1);
    match &acts[0] {
        Action::Emit { token, points } => {
            assert_eq!(*token, DeliveryToken(5));
            assert_eq!(points.len(), 2);
            assert_eq!(points[0].value, 200);
            assert_eq!(points[1].value, 30);
        }
        other => panic!("unexpected action {:?}", other),
    }
    assert!(lp.holds(DeliveryToken(5)));
    let acts = lp.on_emitted(DeliveryToken(5), true);
    assert_eq!(acts.len(), 1);
    assert!(matches!(acts[0], Action::Ack { token } if token == DeliveryToken(5)));
    assert!(!lp.holds(DeliveryToken(5)));
    assert!(lp.on_emitted(DeliveryToken(5), true).is_empty());
}

#[test]
fn failed_emission_rejects_and_never_acks() {
    let mut lp = ControlLoop::new(1);
    lp.on_inbound(DeliveryToken(8), Some(req(8)));
    lp.on_completion_at(DeliveryToken(8), ok_result(8, 10), TS);
    let acts = lp.on_emitted(DeliveryToken(8), false);
    assert_eq!(acts.len(), 1);
    assert!(matches!(acts[0], Action::Reject { token } if token == DeliveryToken(8)));
    assert!(!lp.holds(DeliveryToken(8)));
}

#[test]
fn duplicate_delivery_of_held_token_is_ignored() {
    let mut lp = ControlLoop::new(1);
    lp.on_inbound(DeliveryToken(3), Some(req(3)));
    assert!(lp.on_inbound(DeliveryToken(3), Some(req(3))).is_empty());
    assert!(lp.on_inbound(DeliveryToken(3), None).is_empty());
    assert_eq!(lp.in_flight(), 1);
}

#[test]
fn completion_for_unknown_token_is_ignored() {
    let mut lp = ControlLoop::new(1);
    assert!(lp.on_completion_at(DeliveryToken(42), ok_result(42, 1), TS).is_empty());
    assert!(lp.on_emitted(DeliveryToken(42), true).is_empty());
}

#[test]
fn completion_hands_freed_worker_to_next_request() {
    let mut lp = ControlLoop::new(1);
    assert_eq!(lp.on_inbound(DeliveryToken(1), Some(req(1))).len(), 1);
    assert!(lp.on_inbound(DeliveryToken(2), Some(req(2))).is_empty());
    let acts = lp.handle_at(
        PipelineEvent::Completion { token: DeliveryToken(1), result: ok_result(1, 9) },
        TS,
    );
    assert_eq!(acts.len(), 2);
    assert!(matches!(&acts[0], Action::Emit { token, .. } if *token == DeliveryToken(1)));
    assert!(is_start(&acts[1], 2));
}

#[test]
fn handle_stamps_completion_with_current_time() {
    let mut lp = ControlLoop::new(1);
    lp.handle(PipelineEvent::Inbound { token: DeliveryToken(1), payload: Some(req(1)) });
    let acts = lp.handle(PipelineEvent::Completion { token: DeliveryToken(1), result: ok_result(1, 9) });
    match &acts[0] {
        Action::Emit { points, .. } => {
            assert!(points[0].timestamp.secs > 1_600_000_000);
            assert!(points[0].timestamp.micros < 1_000_000);
        }
        other => panic!("unexpected action {:?}", other),
    }
}

/// Runs `n` messages through a loop of `workers` workers, each probe taking
/// `probe_ms` of simulated time and every write succeeding. Returns the acks
/// per token, the most probes seen in flight, and the simulated end time.
fn simulate(n: u64, workers: usize, probe_ms: u64) -> (BTreeMap<u64, u32>, usize, u64) {
    let mut lp = ControlLoop::new(workers);
    let mut acks: BTreeMap<u64, u32> = BTreeMap::new();
    let mut finishing: BTreeSet<(u64, u64)> = BTreeSet::new();
    let mut max_in_flight = 0;
    let mut now: u64 = 0;
    let mut queue: Vec<Action> = Vec::new();
    for i in 0..n {
        queue.extend(lp.on_inbound(DeliveryToken(i), Some(req(i))));
        max_in_flight = max_in_flight.max(lp.in_flight());
    }
    loop {
        while let Some(a) = queue.pop() {
            match a {
                Action::Start { token, .. } => {
                    finishing.insert((now + probe_ms, token.0));
                }
                Action::Emit { token, .. } => queue.extend(lp.on_emitted(token, true)),
                Action::Ack { token } => *acks.entry(token.0).or_insert(0) += 1,
                Action::Reject { .. } => panic!("no write fails here"),
            }
            max_in_flight = max_in_flight.max(lp.in_flight());
        }
        let next = match finishing.iter().next() {
            Some(&f) => f,
            None => break,
        };
        finishing.remove(&next);
        now = next.0;
        queue.extend(lp.on_completion_at(DeliveryToken(next.1), ok_result(next.1, probe_ms), TS));
    }
    (acks, max_in_flight, now)
}

#[test]
fn hundred_messages_four_workers_all_acked_once() {
    let (acks, max_in_flight, end) = simulate(100, 4, 50);
    assert_eq!(acks.len(), 100);
    assert!(acks.values().all(|&c| c == 1));
    assert!(max_in_flight <= 4);
    assert_eq!(end, 100 / 4 * 50);
}

#[test]
fn every_token_settled_exactly_once_with_mixed_outcomes() {
    let mut lp = ControlLoop::new(3);
    let mut settled: BTreeMap<u64, u32> = BTreeMap::new();
    let count = |acts: Vec<Action>, settled: &mut BTreeMap<u64, u32>| {
        for a in acts {
            match a {
                Action::Ack { token } | Action::Reject { token } => {
                    *settled.entry(token.0).or_insert(0) += 1
                }
                _ => {}
            }
        }
    };
    for i in 0..10u64 {
        let payload = if i % 4 == 0 { None } else { Some(req(i)) };
        count(lp.on_inbound(DeliveryToken(i), payload), &mut settled);
    }
    for round in 0..10 {
        for i in 0..10u64 {
            count(lp.on_completion_at(DeliveryToken(i), ok_result(i, 1), TS), &mut settled);
            count(lp.on_emitted(DeliveryToken(i), (i + round) % 3 != 0), &mut settled);
        }
    }
    assert_eq!(settled.len(), 10);
    assert!(settled.values().all(|&c| c == 1));
    for i in 0..10u64 {
        assert!(!lp.holds(DeliveryToken(i)));
    }
}
