use jtail::filter::Filters;
use jtail::record::Record;
use jtail::tail::Tail;

const MS: u64 = 1_000_000;

fn record(host: &str, timestamp_us: i64, unit: &str) -> Record {
    Record {
        host: host.into(),
        timestamp_us,
        cursor: None,
        unit: Some(unit.into()),
        pid: None,
        priority: None,
        message: String::new(),
    }
}

#[test]
fn only_live_entries_feed_the_skew_estimate() {
    let mut t = Tail::new(Filters::new(&[], None, None), 300 * MS);
    for i in 0..40 {
        assert_eq!(t.on_entry(record("a", i, "x.service"), false, i + 10_000_000, 0), None);
    }
    assert!(t.wants_samples("a"));
    let mut reported = Vec::new();
    for i in 0..32 {
        if let Some(s) = t.on_entry(record("a", i, "x.service"), true, i + 10_000_000, 0) {
            reported.push(s);
        }
    }
    assert_eq!(reported, vec![10_000_000]);
    assert!(!t.wants_samples("a"));
    assert!(t.wants_samples("b"));
}

#[test]
fn hosts_are_judged_separately() {
    let mut t = Tail::new(Filters::new(&[], None, None), 0);
    let mut reports = 0;
    for i in 0..32 {
        if t.on_entry(record("a", i, "x.service"), true, i + 9_000_000, 0).is_some() {
            reports += 1;
        }
        if t.on_entry(record("b", i, "x.service"), true, i, 0).is_some() {
            reports += 1;
        }
    }
    assert_eq!(reports, 1);
}

#[test]
fn filtered_entries_never_reach_the_buffer() {
    let mut t = Tail::new(Filters::new(&["backend".into()], None, None), 100 * MS);
    t.on_entry(record("a", 2, "backend.service"), false, 0, 0);
    t.on_entry(record("a", 1, "nginx.service"), false, 0, 0);
    t.on_entry(record("b", 1, "backend.service"), false, 0, 50 * MS);
    assert_eq!(t.push_count(), 2);
    assert!(t.on_tick(99 * MS).is_empty());
    let out = t.on_tick(100 * MS);
    assert!(out.is_empty());
    let out = t.on_tick(150 * MS);
    let hosts: Vec<String> = out.into_iter().map(|r| r.host).collect();
    assert_eq!(hosts, vec!["b", "a"]);
    assert!(t.finish().is_empty());
}

#[test]
fn finish_releases_what_is_left_in_order() {
    let mut t = Tail::new(Filters::new(&[], None, None), 60_000 * MS);
    t.on_entry(record("a", 5, "x.service"), true, 5, 0);
    t.on_entry(record("b", 3, "x.service"), true, 3, 0);
    let ts: Vec<i64> = t.finish().iter().map(|r| r.timestamp_us).collect();
    assert_eq!(ts, vec![3, 5]);
}

#[test]
fn a_sample_is_refused_only_when_it_completes_a_median_of_i64_min() {
    let mut t = Tail::new(Filters::new(&[], None, None), 0);
    assert!(t.accepts_sample("a", i64::MIN));
    for _ in 0..31 {
        assert!(t.accepts_sample("a", i64::MIN));
        assert_eq!(t.on_entry(record("a", 0, "x.service"), true, i64::MIN, 0), None);
    }
    assert!(!t.accepts_sample("a", 0));
    assert!(t.accepts_sample("b", i64::MIN));
}
