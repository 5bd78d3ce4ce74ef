use poke_agent::batch::{BatchBuffer, Retention};
use poke_agent::model::{DeliveryToken, Label, TimeSeriesPoint, Timestamp};

fn point(name: &str, value: u64) -> TimeSeriesPoint {
    TimeSeriesPoint {
        timestamp: Timestamp { secs: 5, micros: 0 },
        metric_name: name.to_string(),
        labels: vec![Label::new("k", "v")],
        value,
    }
}

fn fill(buf: &mut BatchBuffer, k: u64) {
    for i in 0..k {
        buf.push(DeliveryToken(i), vec![point("lat", i), point("st", 200)]);
    }
}

#[test]
fn one_post_with_all_points_after_window() {
    let mut buf = BatchBuffer::new(10, 100, Retention::Keep);
    fill(&mut buf, 3);
    assert!(buf.tick(105).is_none());
    assert!(buf.tick(109).is_none());
    let batch = buf.tick(110).expect("a batch at the end of the window");
    assert_eq!(batch.tokens, vec![DeliveryToken(0), DeliveryToken(1), DeliveryToken(2)]);
    let values: Vec<u64> = batch.points.iter().map(|p| p.value).collect();
    assert_eq!(values, vec![0, 200, 1, 200, 2, 200]);
    assert!(buf.tick(125).is_none());
    assert_eq!(buf.flush_done(true), vec![DeliveryToken(0), DeliveryToken(1), DeliveryToken(2)]);
    assert_eq!(buf.pending_len(), 0);
}

#[test]
fn failed_post_keeps_entries_for_next_window() {
    let mut buf = BatchBuffer::new(10, 0, Retention::Keep);
    fill(&mut buf, 2);
    buf.tick(10).unwrap();
    buf.push(DeliveryToken(9), vec![point("lat", 9)]);
    assert!(buf.flush_done(false).is_empty());
    assert_eq!(buf.pending_len(), 3);
    assert!(buf.tick(15).is_none());
    let batch = buf.tick(20).unwrap();
    assert_eq!(batch.tokens, vec![DeliveryToken(0), DeliveryToken(1), DeliveryToken(9)]);
}

#[test]
fn failed_post_discards_and_returns_tokens() {
    let mut buf = BatchBuffer::new(10, 0, Retention::Discard);
    fill(&mut buf, 2);
    buf.tick(10).unwrap();
    assert_eq!(buf.flush_done(false), vec![DeliveryToken(0), DeliveryToken(1)]);
    assert_eq!(buf.pending_len(), 0);
}

#[test]
fn empty_window_posts_nothing() {
    let mut buf = BatchBuffer::new(10, 0, Retention::Keep);
    assert!(buf.tick(10).is_none());
    assert!(buf.flush_done(true).is_empty());
    fill(&mut buf, 1);
    assert!(buf.tick(15).is_none());
    assert!(buf.tick(20).is_some());
}

#[test]
fn deadline_saturates_near_end_of_time() {
    let mut buf = BatchBuffer::new(10, 0, Retention::Keep);
    fill(&mut buf, 1);
    assert!(buf.tick(i64::MAX).is_some());
    buf.flush_done(true);
    fill(&mut buf, 1);
    assert!(buf.tick(i64::MAX - 1).is_none());
    assert!(buf.tick(i64::MAX).is_some());
}
