use poke_agent::model::{Checks, DeliveryToken, ProbeRequest};
use poke_agent::pool::WorkerPool;

fn req(i: u64) -> ProbeRequest {
    ProbeRequest {
        url: format!("http://target-{}", i),
        labels: vec![],
        checks: Checks { latency: None, status: None, content_length: None },
    }
}

#[test]
fn burst_larger_than_pool_runs_at_most_size() {
    let mut pool = WorkerPool::new(4);
    let mut started = 0;
    for i in 0..10u64 {
        if pool.submit(DeliveryToken(i), req(i)) {
            started += 1;
        }
        assert!(pool.in_flight() <= 4);
    }
    assert_eq!(started, 4);
    assert_eq!(pool.in_flight(), 4);
    assert_eq!(pool.queued(), 6);
}

#[test]
fn finished_worker_takes_oldest_waiting_job() {
    let mut pool = WorkerPool::new(2);
    for i in 0..5u64 {
        pool.submit(DeliveryToken(i), req(i));
    }
    let (done, next) = pool.finish(DeliveryToken(1));
    assert_eq!(done.unwrap().token, DeliveryToken(1));
    let (tok, url) = next.unwrap();
    assert_eq!(tok, DeliveryToken(2));
    assert_eq!(url, "http://target-2");
    assert_eq!(pool.in_flight(), 2);
    assert_eq!(pool.queued(), 2);
    let (_, next) = pool.finish(DeliveryToken(0));
    assert_eq!(next.unwrap().0, DeliveryToken(3));
}

#[test]
fn finishing_unknown_or_waiting_token_changes_nothing() {
    let mut pool = WorkerPool::new(1);
    pool.submit(DeliveryToken(1), req(1));
    pool.submit(DeliveryToken(2), req(2));
    let (done, next) = pool.finish(DeliveryToken(2));
    assert!(done.is_none() && next.is_none());
    let (done, next) = pool.finish(DeliveryToken(9));
    assert!(done.is_none() && next.is_none());
    assert_eq!(pool.in_flight(), 1);
    assert_eq!(pool.queued(), 1);
    assert!(pool.holds(DeliveryToken(2)));
    assert!(!pool.holds(DeliveryToken(9)));
}

#[test]
fn last_job_leaves_pool_idle() {
    let mut pool = WorkerPool::new(3);
    assert!(pool.submit(DeliveryToken(7), req(7)));
    let (done, next) = pool.finish(DeliveryToken(7));
    assert_eq!(done.unwrap().request.url, "http://target-7");
    assert!(next.is_none());
    assert_eq!(pool.in_flight(), 0);
    assert!(!pool.holds(DeliveryToken(7)));
}
