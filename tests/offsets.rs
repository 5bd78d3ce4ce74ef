use poke_agent::offsets::OffsetTracker;

#[test]
fn commit_moves_only_over_acked_front() {
    let mut t = OffsetTracker::new();
    for o in 10..14 {
        assert!(t.deliver(o));
    }
    assert_eq!(t.ack(12), None);
    assert_eq!(t.ack(11), None);
    assert_eq!(t.ack(10), Some(13));
    assert_eq!(t.len(), 1);
    assert_eq!(t.ack(13), Some(14));
    assert_eq!(t.len(), 0);
}

#[test]
fn unacked_delivery_holds_commit_back() {
    let mut t = OffsetTracker::new();
    t.deliver(0);
    t.deliver(1);
    t.deliver(2);
    assert_eq!(t.ack(1), None);
    assert_eq!(t.ack(2), None);
    assert_eq!(t.len(), 3);
    assert_eq!(t.ack(7), None);
    assert_eq!(t.ack(0), Some(3));
}

#[test]
fn rewind_forgets_later_deliveries() {
    let mut t = OffsetTracker::new();
    t.deliver(5);
    t.deliver(6);
    t.deliver(7);
    assert!(t.deliver(6));
    assert_eq!(t.len(), 2);
    assert_eq!(t.ack(5), Some(6));
    assert_eq!(t.ack(6), Some(7));
}

#[test]
fn special_offsets_are_refused() {
    let mut t = OffsetTracker::new();
    assert!(!t.deliver(-1));
    assert!(!t.deliver(i64::MAX));
    assert_eq!(t.len(), 0);
    assert!(t.deliver(i64::MAX - 1));
    assert_eq!(t.ack(i64::MAX - 1), Some(i64::MAX));
}
