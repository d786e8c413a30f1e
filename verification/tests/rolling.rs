use latency_probe::rolling::RollingAverageBuffer;

#[test]
fn fresh_buffer_averages_zero() {
    let buffer = RollingAverageBuffer::<60>::default();
    assert_eq!(buffer.average(), 0);
}

#[test]
fn full_window_of_one_value_averages_that_value() {
    for v in [0u64, 1, 7, 1000, u64::MAX / 2, u64::MAX] {
        let mut buffer = RollingAverageBuffer::<60>::default();
        for _ in 0..60 {
            buffer.add(v);
        }
        assert_eq!(buffer.average(), v);
    }
}

#[test]
fn old_values_are_fully_evicted() {
    let mut buffer = RollingAverageBuffer::<60>::default();
    for _ in 0..60 {
        buffer.add(10);
    }
    assert_eq!(buffer.average(), 10);
    for _ in 0..60 {
        buffer.add(20);
    }
    assert_eq!(buffer.average(), 20);
}

#[test]
fn average_is_biased_low_until_the_window_is_full() {
    let mut buffer = RollingAverageBuffer::<60>::default();
    for _ in 0..30 {
        buffer.add(60);
    }
    assert_eq!(buffer.average(), 30);
    buffer.add(60);
    assert_eq!(buffer.average(), 31);
}

#[test]
fn insertion_evicts_the_value_of_one_window_ago() {
    let mut buffer = RollingAverageBuffer::<3>::default();
    buffer.add(1);
    buffer.add(2);
    buffer.add(3);
    assert_eq!(buffer.average(), 2);
    buffer.add(9);
    assert_eq!(buffer.average(), 4);
    buffer.add(9);
    assert_eq!(buffer.average(), 7);
    buffer.add(9);
    assert_eq!(buffer.average(), 9);
}

#[test]
fn average_rounds_down() {
    let mut buffer = RollingAverageBuffer::<4>::default();
    buffer.add(1);
    buffer.add(2);
    assert_eq!(buffer.average(), 0);
    buffer.add(4);
    assert_eq!(buffer.average(), 1);
}

#[test]
fn largest_values_do_not_overflow_the_sum() {
    let mut buffer = RollingAverageBuffer::<60>::default();
    for _ in 0..200 {
        buffer.add(u64::MAX);
    }
    assert_eq!(buffer.average(), u64::MAX);
    for _ in 0..60 {
        buffer.add(0);
    }
    assert_eq!(buffer.average(), 0);
}

#[test]
fn single_slot_window_reports_the_last_value() {
    let mut buffer = RollingAverageBuffer::<1>::default();
    buffer.add(5);
    assert_eq!(buffer.average(), 5);
    buffer.add(8);
    assert_eq!(buffer.average(), 8);
}
