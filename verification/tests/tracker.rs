use latency_probe::tracker::{on_message, Arrival, SequenceTracker, TrackerError, PING_COUNT};

#[test]
fn fresh_tracker_has_empty_history() {
    let tracker = SequenceTracker::new();
    assert_eq!(tracker.last_processed_index(), 1023);
    assert_eq!(tracker.cumulative_seq_gap(), 0);
    assert_eq!(tracker.recent_seq_nums().len(), PING_COUNT);
    assert!(tracker.recent_seq_nums().iter().all(|&s| s == 0));
}

#[test]
fn first_probe_lands_in_slot_zero() {
    let mut tracker = SequenceTracker::new();
    assert_eq!(tracker.on_probe(1), Arrival::First);
    assert_eq!(tracker.last_processed_index(), 0);
    assert_eq!(tracker.recent_seq_nums()[0], 1);
    assert_eq!(tracker.cumulative_seq_gap(), 0);
}

#[test]
fn in_order_probes_leave_no_gap() {
    let mut tracker = SequenceTracker::new();
    assert_eq!(tracker.on_probe(1), Arrival::First);
    for s in 2..=10u64 {
        assert_eq!(tracker.on_probe(s), Arrival::InOrder { gap: 0 });
    }
    assert_eq!(tracker.cumulative_seq_gap(), 0);
    assert_eq!(tracker.last_processed_index(), 9);
    for s in 1..=10u64 {
        assert_eq!(tracker.recent_seq_nums()[(s - 1) as usize], s);
    }
}

#[test]
fn dropped_probe_is_counted_as_gap() {
    let mut tracker = SequenceTracker::new();
    assert_eq!(tracker.on_probe(1), Arrival::First);
    assert_eq!(tracker.on_probe(2), Arrival::InOrder { gap: 0 });
    assert_eq!(tracker.on_probe(4), Arrival::InOrder { gap: 1 });
    assert_eq!(tracker.on_probe(5), Arrival::InOrder { gap: 0 });
    assert_eq!(tracker.cumulative_seq_gap(), 1);
}

#[test]
fn gaps_accumulate() {
    let mut tracker = SequenceTracker::new();
    let probes = [3u64, 4, 10, 11, 20];
    for s in probes {
        tracker.on_probe(s);
    }
    assert_eq!(tracker.cumulative_seq_gap(), 5 + 8);
    assert_eq!(tracker.cumulative_seq_gap(), 20 - 3 - 4);
}

#[test]
fn duplicate_does_not_change_gap() {
    let mut tracker = SequenceTracker::new();
    tracker.on_probe(1);
    tracker.on_probe(4);
    assert_eq!(tracker.cumulative_seq_gap(), 2);
    assert_eq!(tracker.on_probe(4), Arrival::Duplicate);
    assert_eq!(tracker.cumulative_seq_gap(), 2);
    assert_eq!(tracker.last_processed_index(), 2);
    assert_eq!(tracker.recent_seq_nums()[2], 4);
}

#[test]
fn out_of_order_does_not_change_gap() {
    let mut tracker = SequenceTracker::new();
    tracker.on_probe(1);
    tracker.on_probe(5);
    assert_eq!(tracker.cumulative_seq_gap(), 3);
    let arrival = tracker.on_probe(3);
    assert_eq!(arrival, Arrival::OutOfOrder);
    assert_ne!(arrival, Arrival::Duplicate);
    assert_eq!(tracker.cumulative_seq_gap(), 3);
    assert_eq!(tracker.on_probe(4), Arrival::InOrder { gap: 0 });
    assert_eq!(tracker.on_probe(6), Arrival::InOrder { gap: 1 });
    assert_eq!(tracker.cumulative_seq_gap(), 4);
}

#[test]
fn zero_as_previous_number_means_no_history() {
    let mut tracker = SequenceTracker::new();
    assert_eq!(tracker.on_probe(0), Arrival::First);
    assert_eq!(tracker.on_probe(0), Arrival::First);
    assert_eq!(tracker.on_probe(9), Arrival::First);
    assert_eq!(tracker.on_probe(0), Arrival::OutOfOrder);
    assert_eq!(tracker.cumulative_seq_gap(), 0);
}

#[test]
fn history_wraps_round() {
    let mut tracker = SequenceTracker::new();
    for s in 1..=1030u64 {
        tracker.on_probe(s);
    }
    assert_eq!(tracker.last_processed_index(), 5);
    assert_eq!(tracker.recent_seq_nums()[5], 1030);
    assert_eq!(tracker.recent_seq_nums()[0], 1025);
    assert_eq!(tracker.recent_seq_nums()[6], 7);
    assert_eq!(tracker.recent_seq_nums()[1023], 1024);
    assert_eq!(tracker.cumulative_seq_gap(), 0);
    assert_eq!(tracker.on_probe(1040), Arrival::InOrder { gap: 9 });
    assert_eq!(tracker.cumulative_seq_gap(), 9);
}

#[test]
fn gap_counter_saturates() {
    let mut tracker = SequenceTracker::new();
    tracker.on_probe(1);
    assert_eq!(tracker.on_probe(u64::MAX), Arrival::InOrder { gap: u64::MAX - 2 });
    assert_eq!(tracker.cumulative_seq_gap(), u64::MAX - 2);
    assert_eq!(tracker.on_probe(1), Arrival::OutOfOrder);
    tracker.on_probe(u64::MAX);
    assert_eq!(tracker.cumulative_seq_gap(), u64::MAX);
    assert_eq!(tracker.on_probe(u64::MAX), Arrival::Duplicate);
    assert_eq!(tracker.cumulative_seq_gap(), u64::MAX);
}

#[test]
fn probe_for_unknown_connection_is_dropped() {
    let mut conn: Option<SequenceTracker> = None;
    assert_eq!(on_message(&mut conn, 1), Err(TrackerError::Uninitialized));
    assert!(conn.is_none());
}

#[test]
fn probe_for_known_connection_is_tracked() {
    let mut conn = Some(SequenceTracker::new());
    assert_eq!(on_message(&mut conn, 1), Ok(Arrival::First));
    assert_eq!(on_message(&mut conn, 3), Ok(Arrival::InOrder { gap: 1 }));
    assert_eq!(on_message(&mut conn, 3), Ok(Arrival::Duplicate));
    assert_eq!(on_message(&mut conn, 2), Ok(Arrival::OutOfOrder));
    let tracker = conn.unwrap();
    assert_eq!(tracker.cumulative_seq_gap(), 1);
    assert_eq!(tracker.last_processed_index(), 3);
}

#[test]
fn connections_are_independent() {
    let mut a = Some(SequenceTracker::new());
    let mut b: Option<SequenceTracker> = None;
    assert_eq!(on_message(&mut b, 7), Err(TrackerError::Uninitialized));
    assert_eq!(on_message(&mut a, 1), Ok(Arrival::First));
    assert_eq!(on_message(&mut a, 4), Ok(Arrival::InOrder { gap: 2 }));
    assert_eq!(a.unwrap().cumulative_seq_gap(), 2);
}

#[test]
fn tracker_is_restored_from_a_snapshot() {
    let mut tracker = SequenceTracker::new();
    for s in [1u64, 2, 5] {
        tracker.on_probe(s);
    }
    let mut restored = SequenceTracker::restore(
        tracker.last_processed_index(),
        &tracker.recent_seq_nums()[..],
        tracker.cumulative_seq_gap(),
    )
    .unwrap();
    assert_eq!(restored.last_processed_index(), 2);
    assert_eq!(restored.cumulative_seq_gap(), 2);
    assert_eq!(restored.recent_seq_nums(), tracker.recent_seq_nums());
    assert_eq!(restored.on_probe(5), Arrival::Duplicate);
    assert_eq!(restored.on_probe(7), Arrival::InOrder { gap: 1 });
    assert_eq!(restored.cumulative_seq_gap(), 3);
}

#[test]
fn freshly_initialised_snapshot_is_a_fresh_tracker() {
    let mut tracker = SequenceTracker::restore(1023, &vec![0u64; 1024], 0).unwrap();
    assert_eq!(tracker.on_probe(1), Arrival::First);
    assert_eq!(tracker.last_processed_index(), 0);
    assert_eq!(tracker.recent_seq_nums()[0], 1);
}

#[test]
fn malformed_snapshot_is_no_tracker() {
    assert!(SequenceTracker::restore(0, &[1, 2, 3], 0).is_none());
    assert!(SequenceTracker::restore(0, &vec![0u64; 1023], 0).is_none());
    assert!(SequenceTracker::restore(0, &vec![0u64; 1025], 0).is_none());
    assert!(SequenceTracker::restore(1024, &vec![0u64; 1024], 0).is_none());
    assert!(SequenceTracker::restore(u64::MAX, &vec![0u64; 1024], 0).is_none());
    assert!(SequenceTracker::restore(1023, &vec![0u64; 1024], 7).is_some());
}
