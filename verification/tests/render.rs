use jtail::record::Record;
use jtail::render::{host_color, indent_continuations, trim_unit, Hue, Renderer};

fn record(timestamp_us: i64) -> Record {
    Record {
        host: "app1".into(),
        timestamp_us,
        cursor: None,
        unit: Some("backend.service".into()),
        pid: Some("42".into()),
        priority: Some(6),
        message: "started".into(),
    }
}

#[test]
fn formats_a_plain_entry() {
    let r = Renderer::new(false, &["app1".to_string(), "db-long".to_string()]);
    let line = r.entry(&record(0));
    assert!(line.ends_with("app1    backend[42]: started"));
}

#[test]
fn indents_multi_line_messages() {
    let mut rec = record(0);
    rec.message = "boom\n  at Foo.bar".into();
    let r = Renderer::new(false, &["app1".to_string()]);
    assert!(r.entry(&rec).contains("boom\n      at Foo.bar"));
}

#[test]
fn notices_carry_host_and_text() {
    let r = Renderer::new(false, &["app1".to_string()]);
    let line = r.notice(0, "app1", "connection lost, retrying in 1s");
    assert!(line.ends_with("--- app1: connection lost, retrying in 1s ---"));
}

#[test]
fn times_show_milliseconds() {
    let r = Renderer::new(false, &[]);
    let t = r.format_time(1_724_582_400_123_456);
    assert_eq!(t.len(), 12);
    assert!(t.ends_with(".123"));
    assert_eq!(&t[2..3], ":");
    assert_eq!(&t[5..6], ":");
    assert!(r.format_time(-1).ends_with(".999"));
    assert!(r.format_time(-1_000).ends_with(".999"));
    assert!(r.format_time(-1_000_000).ends_with(".000"));
}

#[test]
fn times_outside_the_clock_range_are_unknown() {
    let r = Renderer::new(false, &[]);
    assert_eq!(r.format_time(i64::MAX), "??:??:??.???");
    assert_eq!(r.format_time(i64::MIN), "??:??:??.???");
    assert_ne!(r.format_time(253_402_207_200_000_000), "??:??:??.???");
    assert_eq!(r.format_time(253_402_207_200_000_001), "??:??:??.???");
}

#[test]
fn entries_without_unit_or_pid() {
    let r = Renderer::new(false, &["app1".to_string()]);
    let mut rec = record(0);
    rec.pid = None;
    assert!(r.entry(&rec).ends_with(" app1 backend: started"));
    rec.unit = None;
    assert!(r.entry(&rec).ends_with(" app1 -: started"));
    rec.unit = Some("docker.socket".into());
    assert!(r.entry(&rec).ends_with(" app1 docker.socket: started"));
}

#[test]
fn colored_entries_paint_host_and_severe_messages() {
    let r = Renderer::new(true, &["app1".to_string()]);
    let mut rec = record(0);
    rec.priority = Some(2);
    let hue = host_color("app1");
    let host = r.paint("app1", hue);
    assert!(host.starts_with("\u{1b}["));
    assert!(host.ends_with("app1\u{1b}[39m"));
    let line = r.entry(&rec);
    assert!(line.contains(&format!(" {host} backend[42]: ")));
    assert!(line.ends_with("\u{1b}[31mstarted\u{1b}[39m"));
    rec.priority = Some(4);
    assert!(r.entry(&rec).ends_with("\u{1b}[33mstarted\u{1b}[39m"));
    rec.priority = Some(7);
    assert!(r.entry(&rec).ends_with("\u{1b}[2mstarted\u{1b}[0m"));
    rec.priority = Some(6);
    assert!(r.entry(&rec).ends_with(": started"));
}

#[test]
fn colored_notices_are_dimmed() {
    let r = Renderer::new(true, &["app1".to_string()]);
    let line = r.notice(0, "app1", "hello");
    assert!(line.starts_with("\u{1b}[2m"));
    assert!(line.ends_with("--- app1: hello ---\u{1b}[0m"));
}

#[test]
fn plain_painting_leaves_text_alone() {
    let r = Renderer::new(false, &[]);
    assert_eq!(r.paint("x", Hue::Red), "x");
}

#[test]
fn host_colors_are_stable() {
    assert_eq!(host_color(""), Hue::Cyan);
    assert_eq!(host_color("a"), host_color("a"));
    // 'a' is 97, and 97 % 6 == 1.
    assert_eq!(host_color("a"), Hue::Green);
    // 97 * 31 + 98 = 3105, and 3105 % 6 == 3.
    assert_eq!(host_color("ab"), Hue::Blue);
}

#[test]
fn only_the_service_suffix_is_trimmed() {
    assert_eq!(trim_unit("backend.service"), "backend");
    assert_eq!(trim_unit("backend.socket"), "backend.socket");
    assert_eq!(trim_unit(".service"), "");
    assert_eq!(trim_unit("service"), "service");
}

#[test]
fn every_continuation_line_is_indented() {
    assert_eq!(indent_continuations("a\nb\n"), "a\n    b\n    ");
    assert_eq!(indent_continuations("plain"), "plain");
}

#[test]
fn hosts_are_padded_to_the_widest_in_bytes() {
    let r = Renderer::new(false, &["é".to_string(), "ab".to_string()]);
    let mut rec = record(0);
    rec.host = "a".into();
    assert!(r.entry(&rec).ends_with(" a  backend[42]: started"));
}

fn seconds_of(t: &str) -> u32 {
    t[6..8].parse().unwrap()
}

#[test]
fn each_line_shows_its_own_instant() {
    let r = Renderer::new(false, &[]);
    let us: i64 = 1_724_582_400_123_456;
    let a = r.format_time(us);
    let b = r.format_time(us + 1_000_000);
    let c = r.format_time(us + 7_000_000);
    assert_eq!(seconds_of(&b), (seconds_of(&a) + 1) % 60);
    assert_eq!(seconds_of(&c), (seconds_of(&a) + 7) % 60);
    assert_eq!(&a[..5], &b[..5]);
    assert!(r.entry(&record(us + 7_000_000)).starts_with(&c));
    assert!(r.notice(us + 1_000_000, "app1", "hi").starts_with(&b));
}

#[test]
fn clock_fields_stay_in_range() {
    let r = Renderer::new(false, &[]);
    for k in 0..48i64 {
        let t = r.format_time(1_724_540_000_000_000 + k * 1_817_000_003);
        let h: u32 = t[0..2].parse().unwrap();
        let m: u32 = t[3..5].parse().unwrap();
        let s: u32 = t[6..8].parse().unwrap();
        assert!(h < 24 && m < 60 && s < 60);
    }
}
