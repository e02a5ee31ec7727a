use sketches::fps::{FPSCounter, NANOS_PER_SECOND};

#[test]
fn new_counter_first_tick_counts_one() {
    let mut counter = FPSCounter::new();
    assert_eq!(counter.tick(), 1);
}

#[test]
fn default_counter_behaves_like_new() {
    let mut counter = FPSCounter::default();
    assert_eq!(counter.tick_at(0), 1);
}

#[test]
fn quick_ticks_are_all_counted() {
    let mut counter = FPSCounter::new();
    assert_eq!(counter.tick(), 1);
    assert_eq!(counter.tick(), 2);
    assert_eq!(counter.tick(), 3);
}

#[test]
fn frames_within_one_second_are_kept() {
    let mut counter = FPSCounter::new();
    assert_eq!(counter.tick_at(5), 1);
    assert_eq!(counter.tick_at(500_000_000), 2);
    assert_eq!(counter.tick_at(1_000_000_005), 3);
}

#[test]
fn frames_older_than_one_second_are_forgotten() {
    let mut counter = FPSCounter::new();
    assert_eq!(counter.tick_at(5), 1);
    assert_eq!(counter.tick_at(500_000_000), 2);
    // 5 + 1s < 1.2s: the first frame is stale, the second is not.
    assert_eq!(counter.tick_at(1_200_000_000), 2);
    // Much later: everything before is stale.
    assert_eq!(counter.tick_at(10 * NANOS_PER_SECOND), 1);
}

#[test]
fn frame_exactly_one_second_old_is_kept() {
    let mut counter = FPSCounter::new();
    assert_eq!(counter.tick_at(NANOS_PER_SECOND), 1);
    assert_eq!(counter.tick_at(2 * NANOS_PER_SECOND), 2);
    assert_eq!(counter.tick_at(2 * NANOS_PER_SECOND + 1), 2);
}

#[test]
fn first_second_never_drops_frames() {
    let mut counter = FPSCounter::new();
    for i in 0..100u128 {
        assert_eq!(counter.tick_at(i * 10_000_000), (i + 1) as usize);
    }
}

#[test]
fn steady_rate_settles_to_frames_per_second() {
    // A frame every 10 ms: after a few seconds the count is the 101 frames
    // from now - 1s to now inclusive.
    let mut counter = FPSCounter::new();
    let mut last = 0;
    for i in 0..500u128 {
        last = counter.tick_at(i * 10_000_000);
    }
    assert_eq!(last, 101);
}

#[test]
fn only_the_leading_stale_run_is_dropped() {
    // Out-of-order readings: a stale frame behind a fresh one stays.
    let mut counter = FPSCounter::new();
    assert_eq!(counter.tick_at(3 * NANOS_PER_SECOND), 1);
    assert_eq!(counter.tick_at(0), 2);
    assert_eq!(counter.tick_at(3 * NANOS_PER_SECOND + 500), 3);
}
