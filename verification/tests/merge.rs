use jtail::merge::Merger;
use jtail::record::Record;

const MS: u64 = 1_000_000;

fn record(host: &str, timestamp_us: i64) -> Record {
    Record {
        host: host.into(),
        timestamp_us,
        cursor: None,
        unit: None,
        pid: None,
        priority: None,
        message: String::new(),
    }
}

#[test]
fn releases_in_timestamp_order() {
    let mut m = Merger::new(300 * MS);
    let arrived: u64 = 7_000 * MS;
    m.push(record("b", 200), arrived);
    m.push(record("a", 100), arrived);
    m.push(record("c", 300), arrived);
    let out = m.pop_ready(arrived + 301 * MS);
    let ts: Vec<i64> = out.iter().map(|r| r.timestamp_us).collect();
    assert_eq!(ts, vec![100, 200, 300]);
}

#[test]
fn holds_entries_inside_the_window() {
    let mut m = Merger::new(300 * MS);
    let arrived: u64 = 7_000 * MS;
    m.push(record("a", 100), arrived);
    assert!(m.pop_ready(arrived + 100 * MS).is_empty());
    assert_eq!(m.pop_ready(arrived + 300 * MS).len(), 1);
}

#[test]
fn preserves_arrival_order_for_equal_timestamps() {
    let mut m = Merger::new(0);
    let arrived: u64 = 7_000 * MS;
    m.push(record("first", 100), arrived);
    m.push(record("second", 100), arrived);
    let out = m.pop_ready(arrived);
    assert_eq!(out[0].host, "first");
    assert_eq!(out[1].host, "second");
}

#[test]
fn drain_flushes_everything_in_order() {
    let mut m = Merger::new(60_000 * MS);
    let arrived: u64 = 7_000 * MS;
    m.push(record("b", 2), arrived);
    m.push(record("a", 1), arrived);
    let ts: Vec<i64> = m.drain().iter().map(|r| r.timestamp_us).collect();
    assert_eq!(ts, vec![1, 2]);
}

#[test]
fn an_unripe_oldest_entry_holds_back_the_rest() {
    let mut m = Merger::new(300 * MS);
    m.push(record("late", 100), 1_000 * MS);
    m.push(record("early", 200), 0);
    assert!(m.pop_ready(500 * MS).is_empty());
    let out = m.pop_ready(1_300 * MS);
    let hosts: Vec<&str> = out.iter().map(|r| r.host.as_str()).collect();
    assert_eq!(hosts, vec!["late", "early"]);
}

#[test]
fn released_entries_are_gone_and_others_stay() {
    let mut m = Merger::new(100 * MS);
    m.push(record("a", 1), 0);
    m.push(record("b", 2), 500 * MS);
    assert_eq!(m.pop_ready(150 * MS).len(), 1);
    assert!(m.pop_ready(150 * MS).is_empty());
    let rest = m.drain();
    assert_eq!(rest.len(), 1);
    assert_eq!(rest[0].host, "b");
    assert!(m.drain().is_empty());
}

#[test]
fn a_clock_reading_before_arrival_counts_as_no_wait() {
    let mut m = Merger::new(1);
    m.push(record("a", 1), 10 * MS);
    assert!(m.pop_ready(0).is_empty());
}

#[test]
fn a_late_entry_is_released_after_what_already_left() {
    let mut m = Merger::new(0);
    m.push(record("new", 500), 0);
    assert_eq!(m.pop_ready(0)[0].timestamp_us, 500);
    m.push(record("old", 100), 0);
    assert_eq!(m.pop_ready(0)[0].timestamp_us, 100);
}

#[test]
fn interleaved_releases_hand_out_every_pushed_entry_once() {
    let mut m = Merger::new(100 * MS);
    let mut out: Vec<String> = Vec::new();
    m.push(record("a", 30), 0);
    m.push(record("b", 10), 5 * MS);
    out.extend(m.pop_ready(110 * MS).into_iter().map(|r| r.host));
    m.push(record("c", 20), 120 * MS);
    m.push(record("d", 10), 130 * MS);
    assert!(m.pop_ready(200 * MS).is_empty());
    out.extend(m.pop_ready(240 * MS).into_iter().map(|r| r.host));
    m.push(record("e", 5), 250 * MS);
    m.push(record("f", 40), 260 * MS);
    out.extend(m.drain().into_iter().map(|r| r.host));
    assert_eq!(out, vec!["b", "a", "d", "c", "e", "f"]);
    assert!(m.pop_ready(u64::MAX).is_empty());
    assert!(m.drain().is_empty());
}

#[test]
fn a_pushed_record_goes_after_every_entry_stamped_no_later() {
    let mut m = Merger::new(60_000 * MS);
    m.push(record("a", 20), 0);
    m.push(record("b", 10), 0);
    m.push(record("c", 30), 0);
    m.push(record("d", 20), 0);
    m.push(record("e", 20), 0);
    let hosts: Vec<String> = m.drain().into_iter().map(|r| r.host).collect();
    assert_eq!(hosts, vec!["b", "a", "d", "e", "c"]);
}
