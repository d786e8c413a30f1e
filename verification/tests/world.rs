use latency_probe::world::{frame_lags, most_recent_frame};

#[test]
fn most_recent_frame_is_the_highest() {
    assert_eq!(most_recent_frame(&[3, 9, 4]), 9);
    assert_eq!(most_recent_frame(&[7]), 7);
    assert_eq!(most_recent_frame(&[5, 5]), 5);
    assert_eq!(most_recent_frame(&[u64::MAX, 0]), u64::MAX);
}

#[test]
fn no_frames_means_frame_zero() {
    assert_eq!(most_recent_frame(&[]), 0);
    assert_eq!(frame_lags(&[]), Vec::<u64>::new());
}

#[test]
fn lags_are_measured_from_the_most_recent_frame() {
    assert_eq!(frame_lags(&[100, 97, 100, 42]), vec![0, 3, 0, 58]);
    assert_eq!(frame_lags(&[8]), vec![0]);
    assert_eq!(frame_lags(&[0, u64::MAX]), vec![u64::MAX, 0]);
}
