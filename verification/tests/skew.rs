use jtail::skew::{SkewTracker, SAMPLE_TARGET};

fn feed(tracker: &mut SkewTracker, offset_us: i64) -> Option<i64> {
    let mut result = None;
    for i in 0..SAMPLE_TARGET as i64 {
        result = tracker.observe(1_000_000 * i, 1_000_000 * i + offset_us);
    }
    result
}

#[test]
fn reports_a_clearly_skewed_clock_once() {
    let mut t = SkewTracker::new();
    assert_eq!(feed(&mut t, 5_000_000), Some(5_000_000));
    assert_eq!(t.observe(0, 5_000_000), None);
}

#[test]
fn tolerates_normal_delivery_delay() {
    let mut t = SkewTracker::new();
    assert_eq!(feed(&mut t, 150_000), None);
}

#[test]
fn reports_a_remote_clock_running_ahead() {
    let mut t = SkewTracker::new();
    assert_eq!(feed(&mut t, -3_000_000), Some(-3_000_000));
}

#[test]
fn says_nothing_before_enough_samples() {
    let mut t = SkewTracker::new();
    for i in 0..(SAMPLE_TARGET - 1) as i64 {
        assert_eq!(t.observe(i, i + 10_000_000), None);
    }
}

#[test]
fn judges_by_the_median_not_the_outliers() {
    let mut t = SkewTracker::new();
    let mut result = None;
    for i in 0..SAMPLE_TARGET as i64 {
        let offset = if i < 15 { 60_000_000 } else { 100_000 + i };
        result = t.observe(0, offset);
    }
    assert_eq!(result, None);
}

#[test]
fn the_median_is_the_upper_middle_sample() {
    let mut t = SkewTracker::new();
    let mut result = None;
    for i in 0..SAMPLE_TARGET as i64 {
        result = t.observe(0, 1_000_000 * (i + 1));
    }
    assert_eq!(result, Some(17_000_000));
}

#[test]
fn a_quiet_verdict_is_final() {
    let mut t = SkewTracker::default();
    assert_eq!(feed(&mut t, 0), None);
    assert_eq!(t.observe(0, 50_000_000), None);
}

#[test]
fn the_threshold_itself_is_tolerated() {
    let mut t = SkewTracker::new();
    assert_eq!(feed(&mut t, 2_000_000), None);
    let mut u = SkewTracker::new();
    assert_eq!(feed(&mut u, 2_000_001), Some(2_000_001));
}

#[test]
fn a_sample_completing_a_median_of_i64_min_is_refused() {
    let fresh = SkewTracker::new();
    assert!(fresh.accepts(i64::MIN));
    let mut t = SkewTracker::new();
    for _ in 0..SAMPLE_TARGET - 1 {
        assert!(t.accepts(i64::MIN));
        assert_eq!(t.observe(0, i64::MIN), None);
    }
    assert!(!t.accepts(5));
    let mut z = SkewTracker::new();
    for _ in 0..SAMPLE_TARGET - 1 {
        assert_eq!(z.observe(0, 0), None);
    }
    assert!(z.accepts(i64::MIN));
    assert_eq!(z.observe(0, i64::MIN), None);
    assert!(z.accepts(i64::MIN));
}

#[test]
fn the_completing_observation_reports_the_median_beyond_the_threshold() {
    let mut t = SkewTracker::new();
    for i in 0..SAMPLE_TARGET as i64 - 1 {
        assert_eq!(t.observe(0, if i % 2 == 1 { 3_000_000 } else { -9_000_000 + i }), None);
    }
    assert_eq!(t.observe(0, 2_500_000), Some(2_500_000));
}
